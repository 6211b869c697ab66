//! The tools every cat runs on its own host: `Bash`, `ReadFile`, `WriteFile`,
//! `Edit`, `MultiEdit`, `LS`, `Glob` and `Grep`. What each call asks for, and
//! what is reported of how it went; running them is the caller's.

use crate::figures;
use crate::json;
use crate::json::Json;
use crate::text;
use crate::tool_out;
use crate::tool_out::{Call, Outcome, ToolOut};
use vstd::prelude::*;
use vstd::string::*;

verus! {

/// `Bash` without a `timeout`, in seconds.
pub const BASH_DEFAULT_TIMEOUT: u64 = 30;

/// The most a `Bash` may ask for, in seconds.
pub const BASH_MAX_TIMEOUT: u64 = 3600;

/// The most paths a `Glob` lists.
pub const GLOB_SHOWN: usize = 200;

// ---------------------------------------------------------------------
// Edits
// ---------------------------------------------------------------------

/// What an edit makes of `content`: `old` has to stand in it, and exactly once
/// unless every copy is to go.
pub open spec fn edited(
    content: Seq<char>,
    old: Seq<char>,
    new: Seq<char>,
    all: bool,
) -> Result<Seq<char>, Seq<char>> {
    let n = text::match_count(content, old);
    if n == 0 {
        Err("old_string not found"@)
    } else if n > 1 && !all {
        Err("old_string matches "@ + text::dec(n) + " times"@)
    } else if all {
        Ok(text::replaced_all(content, old, new))
    } else {
        Ok(text::replaced_once(content, old, new))
    }
}

pub open spec fn result_view(r: Result<String, String>) -> Result<Seq<char>, Seq<char>> {
    match r {
        Ok(s) => Ok(s@),
        Err(e) => Err(e@),
    }
}

/// `old` must appear in `content` exactly once unless `replace_all`. `Err`
/// names why, for the model to retry against.
pub fn apply_edit(content: &str, old: &str, new: &str, replace_all: bool) -> (r: Result<
    String,
    String,
>)
    requires
        content@.len() < usize::MAX,
    ensures
        result_view(r) == edited(content@, old@, new@, replace_all),
{
    let n: usize = text::count_matches(content, old);
    if n == 0 {
        return Err("old_string not found".to_owned());
    }
    if n > 1 && !replace_all {
        return Err(
            String::from_str("old_string matches ").concat(text::number(n as u64).as_str()).concat(
                " times",
            ),
        );
    }
    if replace_all {
        Ok(text::replace_all(content, old, new))
    } else {
        Ok(text::replace_once(content, old, new))
    }
}

/// What is reported of an edit that was made.
pub fn edit_meta(content: &str, old: &str, replace_all: bool) -> (r: String)
    requires
        content@.len() < usize::MAX,
    ensures
        r@ == if replace_all {
            text::dec(text::match_count(content@, old@)) + " replaced"@
        } else {
            "1 replaced"@
        },
{
    if replace_all {
        text::number(text::count_matches(content, old) as u64).concat(" replaced")
    } else {
        "1 replaced".to_owned()
    }
}

/// One edit of several.
#[derive(Debug)]
pub struct Change {
    pub old: String,
    pub new: String,
    pub all: bool,
}

/// An edit as its texts.
pub struct ChangeView {
    pub old: Seq<char>,
    pub new: Seq<char>,
    pub all: bool,
}

impl View for Change {
    type V = ChangeView;

    open spec fn view(&self) -> ChangeView {
        ChangeView { old: self.old@, new: self.new@, all: self.all }
    }
}

pub open spec fn changes(v: Seq<Change>) -> Seq<ChangeView> {
    Seq::new(v.len(), |i: int| v[i]@)
}

/// What the first `n` of several edits make of `content`, each on what the one
/// before it left; where one fails, its place and why.
pub open spec fn edited_all(content: Seq<char>, v: Seq<ChangeView>, n: nat) -> Result<
    Seq<char>,
    (nat, Seq<char>),
>
    decreases n,
{
    if n == 0 {
        Ok(content)
    } else {
        match edited_all(content, v, (n - 1) as nat) {
            Err(e) => Err(e),
            Ok(c) => match edited(c, v[n - 1].old, v[n - 1].new, v[n - 1].all) {
                Ok(d) => Ok(d),
                Err(msg) => Err((n, msg)),
            },
        }
    }
}

/// The lengths that several edits pass through all fit in memory.
pub open spec fn edits_fit(content: Seq<char>, v: Seq<ChangeView>) -> bool {
    forall|n: nat|
        n <= v.len() ==> match #[trigger] edited_all(content, v, n) {
            Ok(c) => c.len() < usize::MAX,
            Err(_) => true,
        }
}

/// Several edits on one text, all or nothing.
pub fn apply_edits(content: &str, edits: &Vec<Change>) -> (r: Result<String, (usize, String)>)
    requires
        edits_fit(content@, changes(edits@)),
    ensures
        match r {
            Ok(s) => edited_all(content@, changes(edits@), edits@.len()) == Ok::<
                Seq<char>,
                (nat, Seq<char>),
            >(s@),
            Err((i, e)) => edited_all(content@, changes(edits@), edits@.len()) == Err::<
                Seq<char>,
                (nat, Seq<char>),
            >((i as nat, e@)),
        },
{
    let ghost v = changes(edits@);
    let mut now = content.to_owned();
    let mut i: usize = 0;
    while i < edits.len()
        invariant
            i <= edits.len(),
            v == changes(edits@),
            edits_fit(content@, v),
            edited_all(content@, v, i as nat) == Ok::<Seq<char>, (nat, Seq<char>)>(now@),
        decreases edits.len() - i,
    {
        let e = &edits[i];
        assert(edited_all(content@, v, i as nat) is Ok);
        assert(v[i as int] == e@);
        match apply_edit(now.as_str(), e.old.as_str(), e.new.as_str(), e.all) {
            Ok(s) => {
                assert(edited_all(content@, v, (i + 1) as nat) == Ok::<
                    Seq<char>,
                    (nat, Seq<char>),
                >(s@));
                now = s;
            },
            Err(msg) => {
                proof {
                    lemma_failure_stays(content@, v, (i + 1) as nat, v.len());
                }
                return Err((i + 1, msg));
            },
        }
        i = i + 1;
    }
    Ok(now)
}

proof fn lemma_failure_stays(content: Seq<char>, v: Seq<ChangeView>, i: nat, n: nat)
    requires
        i <= n,
        edited_all(content, v, i) is Err,
    ensures
        edited_all(content, v, n) == edited_all(content, v, i),
    decreases n,
{
    if i < n {
        lemma_failure_stays(content, v, i, (n - 1) as nat);
    }
}

// ---------------------------------------------------------------------
// Patterns
// ---------------------------------------------------------------------

/// `*` stands for any run of bytes, `?` for any one, everything else for
/// itself.
pub open spec fn globs(p: Seq<u8>, s: Seq<u8>) -> bool
    decreases p.len(),
{
    if p.len() == 0 {
        s.len() == 0
    } else if p[0] == 42 {
        exists|i: int| 0 <= i <= s.len() && globs(p.skip(1), #[trigger] s.skip(i))
    } else if s.len() == 0 {
        false
    } else {
        (p[0] == 63 || p[0] == s[0]) && globs(p.skip(1), s.skip(1))
    }
}

fn glob_from(p: &[u8], i: usize, s: &[u8], j: usize) -> (r: bool)
    requires
        i <= p.len(),
        j <= s.len(),
    ensures
        r == globs(p@.skip(i as int), s@.skip(j as int)),
    decreases p.len() - i,
{
    let ghost pv = p@.skip(i as int);
    let ghost sv = s@.skip(j as int);
    if i == p.len() {
        return j == s.len();
    }
    assert(pv[0] == p@[i as int]);
    assert(pv.skip(1) =~= p@.skip(i + 1));
    if p[i] == 42 {
        let mut k: usize = j;
        while k < s.len()
            invariant
                i < p.len(),
                j <= k <= s.len(),
                pv.skip(1) == p@.skip(i + 1),
                sv == s@.skip(j as int),
                forall|m: int| 0 <= m < k - j ==> !globs(pv.skip(1), #[trigger] sv.skip(m)),
                pv.len() > 0 && pv[0] == 42,
                pv == p@.skip(i as int),
            decreases s.len() - k,
        {
            assert(sv.skip(k - j) =~= s@.skip(k as int));
            if glob_from(p, i + 1, s, k) {
                return true;
            }
            k = k + 1;
        }
        assert(sv.skip(k - j) =~= s@.skip(k as int));
        let last = glob_from(p, i + 1, s, k);
        assert forall|m: int| 0 <= m <= sv.len() && globs(pv.skip(1), #[trigger] sv.skip(m)) implies m
            == k - j by {}
        return last;
    }
    if j == s.len() {
        return false;
    }
    assert(sv[0] == s@[j as int]);
    assert(sv.skip(1) =~= s@.skip(j + 1));
    (p[i] == 63 || p[i] == s[j]) && glob_from(p, i + 1, s, j + 1)
}

/// `*` and `?` only: enough for the `ignore` list of `LS`. Not a full glob: no
/// `**`, no character classes.
pub fn glob_match(pattern: &str, name: &str) -> (r: bool)
    ensures
        r == globs(pattern.spec_bytes(), name.spec_bytes()),
{
    let p = pattern.as_bytes();
    let s = name.as_bytes();
    assert(p@.skip(0) =~= p@);
    assert(s@.skip(0) =~= s@);
    glob_from(p, 0, s, 0)
}

/// A pattern without wildcards matches itself and nothing else.
pub proof fn plain_patterns_match_themselves(p: Seq<u8>, s: Seq<u8>)
    requires
        forall|i: int| 0 <= i < p.len() ==> p[i] != 42 && p[i] != 63,
    ensures
        globs(p, s) <==> p == s,
    decreases p.len(),
{
    if p.len() == 0 {
        assert(s.len() == 0 ==> p =~= s);
    } else if s.len() > 0 {
        plain_patterns_match_themselves(p.skip(1), s.skip(1));
        if p[0] == s[0] && p.skip(1) == s.skip(1) {
            assert(p =~= seq![p[0]] + p.skip(1));
            assert(s =~= seq![s[0]] + s.skip(1));
        }
    }
}

/// A lone star matches every name.
pub proof fn a_star_matches_everything(s: Seq<u8>)
    ensures
        globs(seq![42u8], s),
{
    assert(seq![42u8].skip(1) =~= Seq::<u8>::empty());
    assert(globs(seq![42u8].skip(1), s.skip(s.len() as int)));
}

/// An edit of one place leaves everything else as it was.
pub proof fn an_edit_changes_one_place(content: Seq<char>, old: Seq<char>, new: Seq<char>)
    requires
        edited(content, old, new, false) is Ok,
    ensures
        exists|i: int|
            #[trigger] text::occurs_at(content, old, i) && edited(content, old, new, false)->Ok_0
                == content.take(i) + new + content.skip(i + old.len()),
        text::match_count(content, old) == 1,
{
    text::lemma_find_from(content, old, 0);
    if old.len() == 0 {
        assert(content.subrange(0, 0) =~= old);
        assert(text::occurs_at(content, old, 0));
    }
    let i = text::find_from(content, old, 0)->0 as int;
    assert(text::occurs_at(content, old, i));
}

// ---------------------------------------------------------------------
// Sorting
// ---------------------------------------------------------------------

/// `v` with `t` behind the last name that is not later.
pub open spec fn name_in(v: Seq<Seq<char>>, t: Seq<char>) -> Seq<Seq<char>>
    decreases v.len(),
{
    if v.len() > 0 && !text::no_later(v.last(), t) {
        name_in(v.drop_last(), t).push(v.last())
    } else {
        v.push(t)
    }
}

/// The names in order.
pub open spec fn by_name(v: Seq<Seq<char>>) -> Seq<Seq<char>>
    decreases v.len(),
{
    if v.len() == 0 {
        seq![]
    } else {
        name_in(by_name(v.drop_last()), v.last())
    }
}

proof fn lemma_name_in(v: Seq<Seq<char>>, t: Seq<char>, i: int)
    requires
        0 <= i <= v.len(),
        i == 0 || text::no_later(v[i - 1], t),
        forall|k: int| i <= k < v.len() ==> !text::no_later(#[trigger] v[k], t),
    ensures
        name_in(v, t) == v.insert(i, t),
    decreases v.len(),
{
    if i < v.len() {
        lemma_name_in(v.drop_last(), t, i);
        assert(v.drop_last().insert(i, t).push(v.last()) =~= v.insert(i, t));
    } else {
        assert(v.insert(i, t) =~= v.push(t));
    }
}

pub(crate) fn sorted_names(names: &Vec<String>) -> (out: Vec<String>)
    ensures
        text::texts(out@) == by_name(text::texts(names@)),
{
    let ghost all = text::texts(names@);
    let mut out: Vec<String> = Vec::new();
    let mut n: usize = 0;
    assert(text::texts(out@) =~= by_name(all.take(0)));
    while n < names.len()
        invariant
            n <= names.len(),
            all == text::texts(names@),
            text::texts(out@) == by_name(all.take(n as int)),
        decreases names.len() - n,
    {
        let t = text::chars_of(names[n].as_str());
        let ghost was = text::texts(out@);
        let mut i: usize = out.len();
        loop
            invariant
                i <= out.len(),
                was == text::texts(out@),
                t@ == all[n as int],
                forall|k: int| i <= k < was.len() ==> !text::no_later(#[trigger] was[k], t@),
            ensures
                i <= out.len(),
                was == text::texts(out@),
                i == 0 || text::no_later(was[i - 1], t@),
                forall|k: int| i <= k < was.len() ==> !text::no_later(#[trigger] was[k], t@),
            decreases i,
        {
            if i == 0 {
                break;
            }
            let before = text::chars_of(out[i - 1].as_str());
            assert(before@.skip(0) =~= was[i - 1]);
            assert(t@.skip(0) =~= t@);
            if text::is_no_later(&before, &t, 0) {
                break;
            }
            i = i - 1;
        }
        proof {
            lemma_name_in(was, t@, i as int);
            assert(all.take(n + 1).drop_last() =~= all.take(n as int));
            assert(all.take(n + 1).last() == all[n as int]);
        }
        let name = names[n].clone();
        out.insert(i, name);
        assert(text::texts(out@) =~= was.insert(i as int, t@));
        n = n + 1;
    }
    assert(all.take(n as int) =~= all);
    out
}

/// No name comes before an earlier one.
pub open spec fn names_ordered(v: Seq<Seq<char>>) -> bool {
    forall|i: int, j: int| 0 <= i < j < v.len() ==> text::no_later(#[trigger] v[i], #[trigger] v[j])
}

proof fn lemma_name_in_keeps(v: Seq<Seq<char>>, t: Seq<char>)
    requires
        names_ordered(v),
    ensures
        names_ordered(name_in(v, t)),
        name_in(v, t).to_multiset() == v.to_multiset().insert(t),
        v.len() > 0 && !text::no_later(v.last(), t) ==> name_in(v, t).last() == v.last(),
        v.len() == 0 || text::no_later(v.last(), t) ==> name_in(v, t).last() == t,
        name_in(v, t).len() == v.len() + 1,
    decreases v.len(),
{
    broadcast use vstd::seq_lib::group_to_multiset_ensures;

    if v.len() > 0 && !text::no_later(v.last(), t) {
        let w = v.drop_last();
        lemma_name_in_keeps(w, t);
        let p = name_in(w, t);
        text::lemma_no_later_total(v.last(), t);
        assert(w.push(v.last()) =~= v);
        assert(p.push(v.last()).to_multiset() =~= v.to_multiset().insert(t));
        assert forall|i: int, j: int| 0 <= i < j < p.push(v.last()).len() implies text::no_later(
            #[trigger] p.push(v.last())[i],
            #[trigger] p.push(v.last())[j],
        ) by {
            if j == p.len() {
                assert(text::no_later(p.last(), v.last())) by {
                    if w.len() > 0 && !text::no_later(w.last(), t) {
                        assert(text::no_later(v[v.len() - 2], v[v.len() - 1]));
                    }
                }
                if i < p.len() - 1 {
                    assert(text::no_later(p[i], p[p.len() - 1]));
                    text::lemma_no_later_joins(p[i], p.last(), v.last());
                }
            }
        }
    } else {
        assert(v.push(t).to_multiset() =~= v.to_multiset().insert(t));
        assert forall|i: int, j: int| 0 <= i < j < v.push(t).len() implies text::no_later(
            #[trigger] v.push(t)[i],
            #[trigger] v.push(t)[j],
        ) by {
            if j == v.len() && i < v.len() - 1 {
                assert(text::no_later(v[i], v[v.len() - 1]));
                text::lemma_no_later_joins(v[i], v.last(), t);
            }
        }
    }
}

/// A listing comes in order and holds exactly the names that were found.
pub proof fn a_listing_is_sorted(v: Seq<Seq<char>>)
    ensures
        names_ordered(by_name(v)),
        by_name(v).to_multiset() == v.to_multiset(),
    decreases v.len(),
{
    broadcast use vstd::seq_lib::group_to_multiset_ensures;

    if v.len() > 0 {
        a_listing_is_sorted(v.drop_last());
        lemma_name_in_keeps(by_name(v.drop_last()), v.last());
        assert(v.drop_last().push(v.last()) =~= v);
        assert(by_name(v).to_multiset() =~= v.to_multiset());
    } else {
        assert(by_name(v) =~= v);
    }
}

// ---------------------------------------------------------------------
// What a call asks for
// ---------------------------------------------------------------------

/// One call, ready to run.
#[derive(Debug)]
pub enum Job {
    Bash { command: String, secs: u64 },
    ReadFile { path: String },
    WriteFile { path: String, content: String },
    Edit { path: String, change: Change },
    MultiEdit { path: String, edits: Vec<Change> },
    Ls { path: String, ignore: Vec<String> },
    /// Arguments to `find`, and the call in words.
    Glob { args: Vec<String>, shown: String },
    /// Arguments to `grep`, the call in words, and how many lines to keep.
    Grep { args: Vec<String>, shown: String, limit: Option<u64> },
}

/// A job as its texts.
pub enum JobView {
    Bash { command: Seq<char>, secs: nat },
    ReadFile { path: Seq<char> },
    WriteFile { path: Seq<char>, content: Seq<char> },
    Edit { path: Seq<char>, change: ChangeView },
    MultiEdit { path: Seq<char>, edits: Seq<ChangeView> },
    Ls { path: Seq<char>, ignore: Seq<Seq<char>> },
    Glob { args: Seq<Seq<char>>, shown: Seq<char> },
    Grep { args: Seq<Seq<char>>, shown: Seq<char>, limit: Option<u64> },
}

impl View for Job {
    type V = JobView;

    open spec fn view(&self) -> JobView {
        match *self {
            Job::Bash { command, secs } => JobView::Bash { command: command@, secs: secs as nat },
            Job::ReadFile { path } => JobView::ReadFile { path: path@ },
            Job::WriteFile { path, content } => JobView::WriteFile {
                path: path@,
                content: content@,
            },
            Job::Edit { path, change } => JobView::Edit { path: path@, change: change@ },
            Job::MultiEdit { path, edits } => JobView::MultiEdit {
                path: path@,
                edits: changes(edits@),
            },
            Job::Ls { path, ignore } => JobView::Ls {
                path: path@,
                ignore: text::texts(ignore@),
            },
            Job::Glob { args, shown } => JobView::Glob {
                args: text::texts(args@),
                shown: shown@,
            },
            Job::Grep { args, shown, limit } => JobView::Grep {
                args: text::texts(args@),
                shown: shown@,
                limit,
            },
        }
    }
}

/// Seconds a `Bash` may take: what was asked, within bounds, or the default.
pub open spec fn timeout(asked: Option<u64>) -> nat {
    let n = match asked {
        Some(n) => n,
        None => BASH_DEFAULT_TIMEOUT,
    };
    if n < 1 {
        1
    } else if n > BASH_MAX_TIMEOUT {
        BASH_MAX_TIMEOUT as nat
    } else {
        n as nat
    }
}

/// A path, or here where none was given.
pub open spec fn or_here(path: Seq<char>) -> Seq<char> {
    if path.len() == 0 {
        "."@
    } else {
        path
    }
}

pub open spec fn change_asked(j: Json) -> ChangeView {
    ChangeView {
        old: json::words_at(j, "old_string"@),
        new: json::words_at(j, "new_string"@),
        all: json::flag_at(j, "replace_all"@),
    }
}

pub open spec fn changes_asked(v: Seq<Json>) -> Seq<ChangeView> {
    Seq::new(v.len(), |i: int| change_asked(v[i]))
}

/// The texts among the items of a list.
pub open spec fn texts_among(v: Seq<Json>) -> Seq<Seq<char>>
    decreases v.len(),
{
    if v.len() == 0 {
        seq![]
    } else {
        match json::as_text(v.last()) {
            Some(s) => texts_among(v.drop_last()).push(s),
            None => texts_among(v.drop_last()),
        }
    }
}

/// The arguments to `find` for a pattern under `base`: by whole path where the
/// pattern names directories, by file name otherwise.
pub open spec fn find_args(pattern: Seq<char>, base: Seq<char>) -> Seq<Seq<char>> {
    let start = seq![base, "-type"@, "f"@];
    if text::has(pattern, "/"@) && !text::starts(pattern, "**/"@) {
        start.push("-path"@).push("*/"@ + pattern)
    } else {
        start.push("-name"@).push(
            match text::after_prefix(pattern, "**/"@) {
                Some(rest) => rest,
                None => pattern,
            },
        )
    }
}

/// The arguments to `grep`.
pub open spec fn grep_args(a: Json) -> Seq<Seq<char>> {
    let mode = json::text_at(a, "output_mode"@);
    let content = mode == Some("content"@);
    let count = mode == Some("count"@);
    let s0 = seq!["-r"@];
    let s1 = if count {
        s0.push("-c"@)
    } else if !content {
        s0.push("-l"@)
    } else if json::flag_at(a, "-n"@) {
        s0.push("-n"@)
    } else {
        s0
    };
    let s2 = if json::flag_at(a, "-i"@) {
        s1.push("-i"@)
    } else {
        s1
    };
    let s3 = if !content {
        s2
    } else {
        match json::num_at(a, "-C"@) {
            Some(n) => s2.push("-C"@ + text::dec(n as nat)),
            None => {
                let b = match json::num_at(a, "-B"@) {
                    Some(n) => s2.push("-B"@ + text::dec(n as nat)),
                    None => s2,
                };
                match json::num_at(a, "-A"@) {
                    Some(n) => b.push("-A"@ + text::dec(n as nat)),
                    None => b,
                }
            },
        }
    };
    let s4 = match json::text_at(a, "glob"@) {
        Some(g) => s3.push("--include="@ + g),
        None => s3,
    };
    s4.push("-E"@).push(json::words_at(a, "pattern"@)).push(or_here(json::words_at(a, "path"@)))
}

/// What a call asks this host to do; `None` where it is not one of these
/// tools.
pub open spec fn planned(name: Seq<char>, a: Json) -> Option<JobView> {
    if name == "Bash"@ {
        Some(
            JobView::Bash {
                command: json::words_at(a, "command"@),
                secs: timeout(json::num_at(a, "timeout"@)),
            },
        )
    } else if name == "ReadFile"@ {
        Some(JobView::ReadFile { path: json::words_at(a, "path"@) })
    } else if name == "WriteFile"@ {
        Some(
            JobView::WriteFile {
                path: json::words_at(a, "path"@),
                content: json::words_at(a, "content"@),
            },
        )
    } else if name == "Edit"@ {
        Some(JobView::Edit { path: json::words_at(a, "file_path"@), change: change_asked(a) })
    } else if name == "MultiEdit"@ {
        Some(
            JobView::MultiEdit {
                path: json::words_at(a, "file_path"@),
                edits: changes_asked(json::items_at(a, "edits"@)),
            },
        )
    } else if name == "LS"@ {
        Some(
            JobView::Ls {
                path: or_here(json::words_at(a, "path"@)),
                ignore: texts_among(json::items_at(a, "ignore"@)),
            },
        )
    } else if name == "Glob"@ {
        let pattern = json::words_at(a, "pattern"@);
        let base = or_here(json::words_at(a, "path"@));
        Some(
            JobView::Glob { args: find_args(pattern, base), shown: pattern + " under "@ + base },
        )
    } else if name == "Grep"@ {
        Some(
            JobView::Grep {
                args: grep_args(a),
                shown: json::words_at(a, "pattern"@) + " in "@ + or_here(
                    json::words_at(a, "path"@),
                ),
                limit: json::num_at(a, "head_limit"@),
            },
        )
    } else {
        None
    }
}

fn path_or_here(path: String) -> (r: String)
    ensures
        r@ == or_here(path@),
{
    if path.as_str().is_empty() {
        ".".to_owned()
    } else {
        path
    }
}

fn clamp_timeout(asked: Option<u64>) -> (r: u64)
    ensures
        r == timeout(asked),
{
    let n: u64 = match asked {
        Some(n) => n,
        None => BASH_DEFAULT_TIMEOUT,
    };
    if n < 1 {
        1
    } else if n > BASH_MAX_TIMEOUT {
        BASH_MAX_TIMEOUT
    } else {
        n
    }
}

fn change_of(j: &Json) -> (r: Change)
    ensures
        r@ == change_asked(*j),
{
    Change {
        old: j.words("old_string"),
        new: j.words("new_string"),
        all: j.flag("replace_all"),
    }
}

fn changes_of(items: Option<&Vec<Json>>) -> (r: Vec<Change>)
    ensures
        changes(r@) == changes_asked(
            match items {
                Some(v) => v@,
                None => Seq::<Json>::empty(),
            },
        ),
{
    let mut out: Vec<Change> = Vec::new();
    match items {
        Some(v) => {
            let mut i: usize = 0;
            while i < v.len()
                invariant
                    i <= v.len(),
                    out.len() == i,
                    forall|k: int| 0 <= k < i ==> (#[trigger] out@[k])@ == change_asked(v@[k]),
                decreases v.len() - i,
            {
                out.push(change_of(&v[i]));
                i = i + 1;
            }
            assert(changes(out@) =~= changes_asked(v@));
        },
        None => {
            assert(changes(out@) =~= changes_asked(Seq::<Json>::empty()));
        },
    }
    out
}

fn texts_in(items: Option<&Vec<Json>>) -> (r: Vec<String>)
    ensures
        text::texts(r@) == texts_among(
            match items {
                Some(v) => v@,
                None => Seq::<Json>::empty(),
            },
        ),
{
    let mut out = text::none();
    match items {
        Some(v) => {
            let mut i: usize = 0;
            assert(v@.take(0) =~= Seq::<Json>::empty());
            while i < v.len()
                invariant
                    i <= v.len(),
                    text::texts(out@) == texts_among(v@.take(i as int)),
                decreases v.len() - i,
            {
                assert(v@.take(i + 1).drop_last() =~= v@.take(i as int));
                match v[i].as_str() {
                    Some(s) => text::put(&mut out, s),
                    None => {},
                }
                i = i + 1;
            }
            assert(v@.take(i as int) =~= v@);
        },
        None => {},
    }
    out
}

fn find_arguments(pattern: &str, base: &str) -> (out: Vec<String>)
    ensures
        text::texts(out@) == find_args(pattern@, base@),
{
    let mut out = text::none();
    text::put(&mut out, base);
    text::put(&mut out, "-type");
    text::put(&mut out, "f");
    assert(text::texts(out@) =~= seq![base@, "-type"@, "f"@]);
    if text::contains(pattern, "/") && !text::starts_with(pattern, "**/") {
        text::put(&mut out, "-path");
        let whole = String::from_str("*/").concat(pattern);
        text::put(&mut out, whole.as_str());
    } else {
        text::put(&mut out, "-name");
        match text::strip_prefix(pattern, "**/") {
            Some(rest) => text::put(&mut out, rest.as_str()),
            None => text::put(&mut out, pattern),
        }
    }
    out
}

fn is_text(o: &Option<String>, want: &str) -> (r: bool)
    ensures
        r == (text::text_view(*o) == Some(want@)),
{
    match o {
        Some(s) => text::same(s.as_str(), want),
        None => false,
    }
}

fn grep_arguments(a: &Json) -> (out: Vec<String>)
    ensures
        text::texts(out@) == grep_args(*a),
{
    let mode = a.text("output_mode");
    let content = is_text(&mode, "content");
    let count = is_text(&mode, "count");
    let mut out = text::none();
    text::put(&mut out, "-r");
    assert(text::texts(out@) =~= seq!["-r"@]);
    if count {
        text::put(&mut out, "-c");
    } else if !content {
        text::put(&mut out, "-l");
    } else if a.flag("-n") {
        text::put(&mut out, "-n");
    }
    if a.flag("-i") {
        text::put(&mut out, "-i");
    }
    if content {
        match a.num("-C") {
            Some(n) => {
                let s = String::from_str("-C").concat(text::number(n).as_str());
                text::put(&mut out, s.as_str());
            },
            None => {
                match a.num("-B") {
                    Some(n) => {
                        let s = String::from_str("-B").concat(text::number(n).as_str());
                        text::put(&mut out, s.as_str());
                    },
                    None => {},
                }
                match a.num("-A") {
                    Some(n) => {
                        let s = String::from_str("-A").concat(text::number(n).as_str());
                        text::put(&mut out, s.as_str());
                    },
                    None => {},
                }
            },
        }
    }
    match a.text("glob") {
        Some(g) => {
            let s = String::from_str("--include=").concat(g.as_str());
            text::put(&mut out, s.as_str());
        },
        None => {},
    }
    text::put(&mut out, "-E");
    text::put(&mut out, a.words("pattern").as_str());
    text::put(&mut out, path_or_here(a.words("path")).as_str());
    out
}

pub open spec fn job_view(o: Option<Job>) -> Option<JobView> {
    match o {
        Some(j) => Some(j@),
        None => None,
    }
}

/// What a call asks this host to do; `None` where it is not one of these
/// tools.
pub fn local_tool(c: &Call) -> (r: Option<Job>)
    ensures
        job_view(r) == planned(c.name@, c.args),
{
    let name = c.name.as_str();
    let a = &c.args;
    if text::same(name, "Bash") {
        Some(Job::Bash { command: c.str("command"), secs: clamp_timeout(a.num("timeout")) })
    } else if text::same(name, "ReadFile") {
        Some(Job::ReadFile { path: c.str("path") })
    } else if text::same(name, "WriteFile") {
        Some(Job::WriteFile { path: c.str("path"), content: c.str("content") })
    } else if text::same(name, "Edit") {
        Some(Job::Edit { path: c.str("file_path"), change: change_of(a) })
    } else if text::same(name, "MultiEdit") {
        Some(Job::MultiEdit { path: c.str("file_path"), edits: changes_of(a.items("edits")) })
    } else if text::same(name, "LS") {
        Some(Job::Ls { path: path_or_here(c.str("path")), ignore: texts_in(a.items("ignore")) })
    } else if text::same(name, "Glob") {
        let pattern = c.str("pattern");
        let base = path_or_here(c.str("path"));
        let args = find_arguments(pattern.as_str(), base.as_str());
        Some(Job::Glob { args, shown: pattern.concat(" under ").concat(base.as_str()) })
    } else if text::same(name, "Grep") {
        let path = path_or_here(c.str("path"));
        let shown = c.str("pattern").concat(" in ").concat(path.as_str());
        Some(Job::Grep { args: grep_arguments(a), shown, limit: a.num("head_limit") })
    } else {
        None
    }
}

// ---------------------------------------------------------------------
// How it went
// ---------------------------------------------------------------------

/// How a shell command ended.
#[derive(Debug)]
pub enum Ran {
    NotSpawned(String),
    NotWaited(String),
    /// It ended by itself: its exit code, if it has one, and what it printed.
    Ended(Option<i32>, String),
    /// It was stopped when its time was up; what it had printed by then.
    TimedOut(String),
}

pub open spec fn shell_line(command: Seq<char>) -> Seq<char> {
    "$ "@ + command
}

pub open spec fn bash_outcome(command: Seq<char>, secs: nat, ran: Ran) -> Outcome {
    let line = shell_line(command);
    match ran {
        Ran::NotSpawned(e) => tool_out::with_body(
            tool_out::with_meta(tool_out::bare(line, false), "failed to spawn"@),
            e@,
        ),
        Ran::NotWaited(e) => tool_out::with_body(
            tool_out::with_meta(tool_out::bare(line, false), "failed to wait"@),
            e@,
        ),
        Ran::Ended(code, out) => tool_out::with_body(
            tool_out::with_meta(
                tool_out::bare(line, code == Some(0i32)),
                match code {
                    Some(c) => "exit "@ + text::signed(c as int),
                    None => "killed"@,
                },
            ),
            out@,
        ),
        Ran::TimedOut(out) => {
            let hint = "Pass a larger timeout (seconds, up to "@ + text::dec(
                BASH_MAX_TIMEOUT as nat,
            ) + ") if this needs longer."@;
            tool_out::with_body(
                tool_out::with_meta(
                    tool_out::bare(line, false),
                    "timed out after "@ + text::dec(secs) + "s, killed"@,
                ),
                if text::trimmed(out@).len() == 0 {
                    hint
                } else {
                    out@ + "\n["@ + hint + "]"@
                },
            )
        },
    }
}

/// What is reported of a `Bash`.
pub fn bash_report(command: &str, secs: u64, ran: &Ran) -> (r: ToolOut)
    ensures
        r@ == bash_outcome(command@, secs as nat, *ran),
{
    let line = String::from_str("$ ").concat(command);
    match ran {
        Ran::NotSpawned(e) => ToolOut::new(line.as_str(), false).meta("failed to spawn").body(
            e.as_str(),
        ),
        Ran::NotWaited(e) => ToolOut::new(line.as_str(), false).meta("failed to wait").body(
            e.as_str(),
        ),
        Ran::Ended(code, out) => {
            let went = match code {
                Some(c) => *c == 0,
                None => false,
            };
            let meta = match code {
                Some(c) => String::from_str("exit ").concat(text::signed_number(*c).as_str()),
                None => "killed".to_owned(),
            };
            ToolOut::new(line.as_str(), went).meta(meta.as_str()).body(out.as_str())
        },
        Ran::TimedOut(out) => {
            let hint = String::from_str("Pass a larger timeout (seconds, up to ").concat(
                text::number(BASH_MAX_TIMEOUT).as_str(),
            ).concat(") if this needs longer.");
            let body = if text::trim(out.as_str()).as_str().is_empty() {
                hint
            } else {
                out.clone().concat("\n[").concat(hint.as_str()).concat("]")
            };
            let meta = String::from_str("timed out after ").concat(
                text::number(secs).as_str(),
            ).concat("s, killed");
            ToolOut::new(line.as_str(), false).meta(meta.as_str()).body(body.as_str())
        },
    }
}

/// What is reported of a `ReadFile`: the file, or why it could not be read.
pub fn read_report(path: &str, read: &Result<String, String>) -> (r: ToolOut)
    ensures
        r@ == (match *read {
            Ok(s) => tool_out::with_body(
                tool_out::with_meta(
                    tool_out::bare(path@, true),
                    figures::byte_text(text::size(s@) as nat),
                ),
                s@,
            ),
            Err(e) => tool_out::with_body(tool_out::bare(path@, false), e@),
        }),
{
    match read {
        Ok(s) => ToolOut::new(path, true).meta(figures::bytes(s.as_str().len() as u64).as_str()).body(
            s.as_str(),
        ),
        Err(e) => ToolOut::new(path, false).body(e.as_str()),
    }
}

/// What is reported of a `WriteFile`; `failed` is why it could not be written.
pub fn write_report(path: &str, content: &str, failed: &Option<String>) -> (r: ToolOut)
    ensures
        r@ == (match *failed {
            None => tool_out::with_meta(
                tool_out::bare(path@, true),
                "wrote "@ + figures::byte_text(text::size(content@) as nat),
            ),
            Some(e) => tool_out::with_body(tool_out::bare(path@, false), e@),
        }),
{
    match failed {
        None => {
            let meta = String::from_str("wrote ").concat(figures::bytes(content.len() as u64).as_str());
            ToolOut::new(path, true).meta(meta.as_str())
        },
        Some(e) => ToolOut::new(path, false).body(e.as_str()),
    }
}

/// What is reported of an `Edit` that was made in `content`.
pub fn edit_made(path: &str, content: &str, change: &Change) -> (r: ToolOut)
    requires
        content@.len() < usize::MAX,
    ensures
        r@ == tool_out::with_meta(
            tool_out::bare(path@, true),
            if change.all {
                text::dec(text::match_count(content@, change.old@)) + " replaced"@
            } else {
                "1 replaced"@
            },
        ),
{
    ToolOut::new(path, true).meta(
        edit_meta(content, change.old.as_str(), change.all).as_str(),
    )
}

/// What is reported of an `Edit` or a `MultiEdit` that could not be made:
/// nothing was written.
pub fn edit_refused(path: &str, why: &str) -> (r: ToolOut)
    ensures
        r@ == tool_out::with_body(
            tool_out::with_meta(tool_out::bare(path@, false), why@),
            "Nothing written."@,
        ),
{
    ToolOut::new(path, false).meta(why).body("Nothing written.")
}

/// What is reported where one of several edits could not be made.
pub fn edits_refused(path: &str, at: usize, of: usize, why: &str) -> (r: ToolOut)
    ensures
        r@ == tool_out::with_body(
            tool_out::with_meta(
                tool_out::bare(path@, false),
                "edit "@ + text::dec(at as nat) + " of "@ + text::dec(of as nat) + ": "@ + why@,
            ),
            "Nothing written — every edit must succeed before any of them are applied."@,
        ),
{
    let meta = String::from_str("edit ").concat(text::number(at as u64).as_str()).concat(
        " of ",
    ).concat(text::number(of as u64).as_str()).concat(": ").concat(why);
    ToolOut::new(path, false).meta(meta.as_str()).body(
        "Nothing written — every edit must succeed before any of them are applied.",
    )
}

/// What is reported of several edits that were made.
pub fn edits_made(path: &str, n: usize) -> (r: ToolOut)
    ensures
        r@ == tool_out::with_meta(
            tool_out::bare(path@, true),
            text::dec(n as nat) + " edit(s) applied"@,
        ),
{
    ToolOut::new(path, true).meta(text::number(n as u64).concat(" edit(s) applied").as_str())
}

/// An entry of a directory as a listing shows it.
pub open spec fn entry_text(name: Seq<char>, dir: bool) -> Seq<char> {
    if dir {
        name + "/"@
    } else {
        name
    }
}

/// Whether some pattern of `ignore` matches `name`.
pub open spec fn ignored(ignore: Seq<Seq<char>>, name: Seq<char>) -> bool {
    exists|i: int|
        0 <= i < ignore.len() && globs(
            vstd::utf8::encode_utf8(#[trigger] ignore[i]),
            vstd::utf8::encode_utf8(name),
        )
}

/// The entries that are not ignored, in the order they were found.
pub open spec fn entries_kept(v: Seq<(String, bool)>, ignore: Seq<Seq<char>>) -> Seq<Seq<char>>
    decreases v.len(),
{
    if v.len() == 0 {
        seq![]
    } else if ignored(ignore, v.last().0@) {
        entries_kept(v.drop_last(), ignore)
    } else {
        entries_kept(v.drop_last(), ignore).push(entry_text(v.last().0@, v.last().1))
    }
}

fn is_ignored(ignore: &Vec<String>, name: &str) -> (r: bool)
    ensures
        r == ignored(text::texts(ignore@), name@),
{
    let ghost pats = text::texts(ignore@);
    let mut i: usize = 0;
    while i < ignore.len()
        invariant
            i <= ignore.len(),
            pats == text::texts(ignore@),
            forall|k: int|
                0 <= k < i ==> !globs(
                    vstd::utf8::encode_utf8(#[trigger] pats[k]),
                    vstd::utf8::encode_utf8(name@),
                ),
        decreases ignore.len() - i,
    {
        assert(pats[i as int] == ignore@[i as int]@);
        if glob_match(ignore[i].as_str(), name) {
            return true;
        }
        i = i + 1;
    }
    false
}

/// What is reported of an `LS`: the entries, directories with a slash, the
/// ignored ones left out, in order.
pub fn ls_report(path: &str, entries: &Vec<(String, bool)>, ignore: &Vec<String>) -> (r: ToolOut)
    ensures
        r@ == ({
            let names = by_name(entries_kept(entries@, text::texts(ignore@)));
            tool_out::with_body(
                tool_out::with_meta(
                    tool_out::bare(path@, true),
                    text::dec(names.len()) + " entrie(s)"@,
                ),
                text::joined(names, "\n"@),
            )
        }),
{
    let mut kept = text::none();
    let mut i: usize = 0;
    assert(entries@.take(0) =~= Seq::<(String, bool)>::empty());
    while i < entries.len()
        invariant
            i <= entries.len(),
            text::texts(kept@) == entries_kept(entries@.take(i as int), text::texts(ignore@)),
        decreases entries.len() - i,
    {
        assert(entries@.take(i + 1).drop_last() =~= entries@.take(i as int));
        let name = entries[i].0.as_str();
        if !is_ignored(ignore, name) {
            if entries[i].1 {
                let s = name.to_owned().concat("/");
                text::put(&mut kept, s.as_str());
            } else {
                text::put(&mut kept, name);
            }
        }
        i = i + 1;
    }
    assert(entries@.take(i as int) =~= entries@);
    let names = sorted_names(&kept);
    assert(names.len() == text::texts(names@).len());
    ToolOut::new(path, true).meta(
        text::number(names.len() as u64).concat(" entrie(s)").as_str(),
    ).body(text::join(&names, "\n").as_str())
}

/// A path that was found, and when it last changed.
pub type Found = (i128, String);

pub open spec fn found_view(v: Seq<(i128, String)>) -> Seq<(int, Seq<char>)> {
    Seq::new(v.len(), |i: int| (v[i].0 as int, v[i].1@))
}

/// `v` with `t` behind the last path that is not older.
pub open spec fn found_in(v: Seq<(int, Seq<char>)>, t: (int, Seq<char>)) -> Seq<(int, Seq<char>)>
    decreases v.len(),
{
    if v.len() > 0 && v.last().0 < t.0 {
        found_in(v.drop_last(), t).push(v.last())
    } else {
        v.push(t)
    }
}

/// The newest first; paths of one age in the order they were found.
pub open spec fn newest_first(v: Seq<(int, Seq<char>)>) -> Seq<(int, Seq<char>)>
    decreases v.len(),
{
    if v.len() == 0 {
        seq![]
    } else {
        found_in(newest_first(v.drop_last()), v.last())
    }
}

proof fn lemma_found_in(v: Seq<(int, Seq<char>)>, t: (int, Seq<char>), i: int)
    requires
        0 <= i <= v.len(),
        i == 0 || v[i - 1].0 >= t.0,
        forall|k: int| i <= k < v.len() ==> (#[trigger] v[k]).0 < t.0,
    ensures
        found_in(v, t) == v.insert(i, t),
    decreases v.len(),
{
    if i < v.len() {
        lemma_found_in(v.drop_last(), t, i);
        assert(v.drop_last().insert(i, t).push(v.last()) =~= v.insert(i, t));
    } else {
        assert(v.insert(i, t) =~= v.push(t));
    }
}

fn sorted_found(found: &Vec<Found>) -> (out: Vec<Found>)
    ensures
        found_view(out@) == newest_first(found_view(found@)),
{
    let ghost all = found_view(found@);
    let mut out: Vec<Found> = Vec::new();
    let mut n: usize = 0;
    assert(found_view(out@) =~= newest_first(all.take(0)));
    while n < found.len()
        invariant
            n <= found.len(),
            all == found_view(found@),
            found_view(out@) == newest_first(all.take(n as int)),
        decreases found.len() - n,
    {
        let age: i128 = found[n].0;
        let ghost was = found_view(out@);
        let mut i: usize = out.len();
        while i > 0 && out[i - 1].0 < age
            invariant
                i <= out.len(),
                was == found_view(out@),
                forall|k: int| i <= k < was.len() ==> (#[trigger] was[k]).0 < age,
            decreases i,
        {
            assert(was[i - 1].0 == out@[i - 1].0);
            i = i - 1;
        }
        let one = (age, found[n].1.clone());
        let ghost t = all[n as int];
        proof {
            assert(i > 0 ==> was[i - 1].0 == out@[i - 1].0);
            lemma_found_in(was, t, i as int);
            assert(all.take(n + 1).drop_last() =~= all.take(n as int));
            assert(all.take(n + 1).last() == t);
        }
        out.insert(i, one);
        assert(found_view(out@) =~= was.insert(i as int, t));
        n = n + 1;
    }
    assert(all.take(n as int) =~= all);
    out
}

/// The paths of what was found.
pub open spec fn paths(v: Seq<(int, Seq<char>)>) -> Seq<Seq<char>> {
    Seq::new(v.len(), |i: int| v[i].1)
}

/// The first `n` of `v`, or all of it.
pub open spec fn up_to<A>(v: Seq<A>, n: nat) -> Seq<A> {
    if v.len() > n {
        v.take(n as int)
    } else {
        v
    }
}

/// What is reported of a `Glob`: the newest paths first, at most
/// [`GLOB_SHOWN`], or what `find` complained of where it failed and found
/// nothing.
pub fn glob_report(shown: &str, went: bool, found: &Vec<Found>, complaint: &str) -> (r: ToolOut)
    ensures
        r@ == if !went && found@.len() == 0 {
            tool_out::with_body(tool_out::bare(shown@, false), complaint@)
        } else {
            tool_out::with_body(
                tool_out::with_meta(
                    tool_out::bare(shown@, true),
                    text::dec(found@.len()) + " match(es)"@,
                ),
                text::joined(
                    up_to(paths(newest_first(found_view(found@))), GLOB_SHOWN as nat),
                    "\n"@,
                ),
            )
        },
{
    if !went && found.len() == 0 {
        return ToolOut::new(shown, false).body(complaint);
    }
    let sorted = sorted_found(found);
    let ghost want = paths(newest_first(found_view(found@)));
    let mut out = text::none();
    let mut i: usize = 0;
    assert(want.len() == sorted@.len());
    while i < sorted.len() && i < GLOB_SHOWN
        invariant
            i <= sorted.len(),
            i <= GLOB_SHOWN,
            want.len() == sorted@.len(),
            found_view(sorted@) == newest_first(found_view(found@)),
            want == paths(newest_first(found_view(found@))),
            text::texts(out@) == want.take(i as int),
        decreases sorted.len() - i,
    {
        assert(want[i as int] == sorted@[i as int].1@) by {
            assert(found_view(sorted@)[i as int].1 == sorted@[i as int].1@);
        }
        text::put(&mut out, sorted[i].1.as_str());
        assert(want.take(i + 1) =~= want.take(i as int).push(want[i as int]));
        i = i + 1;
    }
    assert(text::texts(out@) =~= up_to(want, GLOB_SHOWN as nat));
    ToolOut::new(shown, true).meta(
        text::number(found.len() as u64).concat(" match(es)").as_str(),
    ).body(text::join(&out, "\n").as_str())
}

/// What is reported of a `Grep`: 0 is matches and 1 none, both a search that
/// worked; anything else is what `grep` complained of.
pub fn grep_report(
    shown: &str,
    code: Option<i32>,
    printed: &str,
    complaint: &str,
    limit: Option<u64>,
) -> (r: ToolOut)
    ensures
        r@ == if code is None || code->0 > 1 {
            tool_out::with_body(tool_out::bare(shown@, false), complaint@)
        } else {
            let all = text::lines(printed@);
            let kept = match limit {
                Some(n) => up_to(all, n as nat),
                None => all,
            };
            tool_out::with_body(
                tool_out::with_meta(
                    tool_out::bare(shown@, true),
                    text::dec(kept.len()) + " line(s)"@,
                ),
                text::joined(kept, "\n"@),
            )
        },
{
    let failed = match code {
        None => true,
        Some(c) => c > 1,
    };
    if failed {
        return ToolOut::new(shown, false).body(complaint);
    }
    let mut lines = text::lines_of(printed);
    let ghost all = text::lines(printed@);
    match limit {
        Some(n) => {
            if lines.len() as u64 > n {
                lines.truncate(n as usize);
                assert(text::texts(lines@) =~= all.take(n as int));
            }
        },
        None => {},
    }
    assert(lines.len() == text::texts(lines@).len());
    ToolOut::new(shown, true).meta(
        text::number(lines.len() as u64).concat(" line(s)").as_str(),
    ).body(text::join(&lines, "\n").as_str())
}

// ---------------------------------------------------------------------
// What holds of edits
// ---------------------------------------------------------------------

/// With `replace_all`, every copy of the old text, taken from the left, stands
/// replaced by the new one, and what stood between the copies is unchanged,
/// however many there are.
pub proof fn every_copy_is_edited(content: Seq<char>, old: Seq<char>, new: Seq<char>)
    ensures
        old.len() > 0 && edited(content, old, new, true) is Ok ==> exists|
            pieces: Seq<Seq<char>>,
        | #[trigger]
            text::pieces_of(content, old, pieces) && pieces.len() > 1 && edited(
                content,
                old,
                new,
                true,
            )->Ok_0 == text::joined(pieces, new),
        old.len() == 0 ==> edited(content, old, new, true) == Ok::<Seq<char>, Seq<char>>(
            text::joined(
                seq![Seq::<char>::empty()] + Seq::new(content.len(), |i: int| seq![content[i]]),
                new,
            ) + new,
        ),
{
    text::every_copy_is_replaced(content, old, new);
}

/// An edit is made where the old text stands in the file, and, unless every copy
/// is to go, in no two places apart; it is refused everywhere else.
pub proof fn an_edit_is_made_where_it_is_plain(
    content: Seq<char>,
    old: Seq<char>,
    new: Seq<char>,
    all: bool,
)
    requires
        old.len() > 0,
    ensures
        text::has(content, old) == false ==> edited(content, old, new, all) == Err::<
            Seq<char>,
            Seq<char>,
        >("old_string not found"@),
        text::has(content, old) && all ==> edited(content, old, new, all) is Ok,
        text::has(content, old) && !all ==> (edited(content, old, new, all) is Err <==> exists|
            i: int,
            j: int,
        |
            #![trigger text::occurs_at(content, old, i), text::occurs_at(content, old, j)]
            i + old.len() <= j && text::occurs_at(content, old, i) && text::occurs_at(
                content,
                old,
                j,
            )),
{
    text::matches_are_counted(content, old);
}

/// Several edits are made one on what the other left, in their order, or not at
/// all: where one is refused, those before it were not, and its place is told.
pub proof fn edits_are_all_or_nothing(content: Seq<char>, v: Seq<ChangeView>, n: nat)
    requires
        n <= v.len(),
    ensures
        edited_all(content, v, 0) == Ok::<Seq<char>, (nat, Seq<char>)>(content),
        forall|k: nat|
            k < n && edited_all(content, v, k) is Ok ==> match edited(
                edited_all(content, v, k)->Ok_0,
                v[k as int].old,
                v[k as int].new,
                v[k as int].all,
            ) {
                Ok(c) => #[trigger] edited_all(content, v, k + 1) == Ok::<
                    Seq<char>,
                    (nat, Seq<char>),
                >(c),
                Err(why) => edited_all(content, v, k + 1) == Err::<Seq<char>, (nat, Seq<char>)>(
                    ((k + 1) as nat, why),
                ) && edited_all(content, v, n) == Err::<Seq<char>, (nat, Seq<char>)>(
                    ((k + 1) as nat, why),
                ),
            },
{
    assert forall|k: nat| k < n && edited_all(content, v, k) is Ok implies match edited(
        edited_all(content, v, k)->Ok_0,
        v[k as int].old,
        v[k as int].new,
        v[k as int].all,
    ) {
        Ok(c) => #[trigger] edited_all(content, v, k + 1) == Ok::<Seq<char>, (nat, Seq<char>)>(c),
        Err(why) => edited_all(content, v, k + 1) == Err::<Seq<char>, (nat, Seq<char>)>(
            ((k + 1) as nat, why),
        ) && edited_all(content, v, n) == Err::<Seq<char>, (nat, Seq<char>)>(
            ((k + 1) as nat, why),
        ),
    } by {
        if edited_all(content, v, k + 1) is Err {
            lemma_failure_stays(content, v, k + 1, n);
        }
    }
}

// ---------------------------------------------------------------------
// What each tool does
// ---------------------------------------------------------------------

/// A command runs for as long as was asked, half a minute where nothing was, and
/// never for less than a second or more than an hour.
pub proof fn a_command_is_given_its_time(asked: Option<u64>)
    ensures
        asked is None ==> timeout(asked) == 30,
        asked matches Some(n) ==> (1 <= n <= 3600 ==> timeout(asked) == n),
        asked matches Some(n) && n > 3600 ==> timeout(asked) == 3600,
        asked == Some(0u64) ==> timeout(asked) == 1,
{
}

/// Each tool does what it is asked with all that it was given, and no other name
/// is taken for one of them.
pub proof fn a_tool_does_what_it_is_asked(name: Seq<char>, a: Json)
    ensures
        planned("Bash"@, a) matches Some(JobView::Bash { command, secs }) && command
            == json::words_at(a, "command"@) && secs == timeout(json::num_at(a, "timeout"@)),
        planned("ReadFile"@, a) matches Some(JobView::ReadFile { path }) && path == json::words_at(
            a,
            "path"@,
        ),
        planned("WriteFile"@, a) matches Some(JobView::WriteFile { path, content }) && path
            == json::words_at(a, "path"@) && content == json::words_at(a, "content"@),
        planned("Edit"@, a) matches Some(JobView::Edit { path, change }) && path == json::words_at(
            a,
            "file_path"@,
        ) && change.old == json::words_at(a, "old_string"@) && change.new == json::words_at(
            a,
            "new_string"@,
        ) && change.all == json::flag_at(a, "replace_all"@),
        planned("MultiEdit"@, a) matches Some(JobView::MultiEdit { path, edits }) && path
            == json::words_at(a, "file_path"@) && edits.len() == json::items_at(a, "edits"@).len()
            && forall|i: int|
            0 <= i < edits.len() ==> (#[trigger] edits[i]).old == json::words_at(
                json::items_at(a, "edits"@)[i],
                "old_string"@,
            ) && edits[i].new == json::words_at(json::items_at(a, "edits"@)[i], "new_string"@)
                && edits[i].all == json::flag_at(json::items_at(a, "edits"@)[i], "replace_all"@),
        planned("LS"@, a) matches Some(JobView::Ls { path, ignore }) && path == or_here(
            json::words_at(a, "path"@),
        ) && ignore == texts_among(json::items_at(a, "ignore"@)),
        planned("Glob"@, a) matches Some(JobView::Glob { args, shown }) && args == find_args(
            json::words_at(a, "pattern"@),
            or_here(json::words_at(a, "path"@)),
        ) && text::starts(shown, json::words_at(a, "pattern"@)) && text::ends(
            shown,
            or_here(json::words_at(a, "path"@)),
        ),
        planned("Grep"@, a) matches Some(JobView::Grep { args, shown, limit }) && args == grep_args(
            a,
        ) && text::starts(shown, json::words_at(a, "pattern"@)) && text::ends(
            shown,
            or_here(json::words_at(a, "path"@)),
        ) && limit == json::num_at(a, "head_limit"@),
        planned(name, a) is Some ==> name == "Bash"@ || name == "ReadFile"@ || name == "WriteFile"@
            || name == "Edit"@ || name == "MultiEdit"@ || name == "LS"@ || name == "Glob"@ || name
            == "Grep"@,
{
    reveal_strlit("Bash");
    reveal_strlit("ReadFile");
    reveal_strlit("WriteFile");
    reveal_strlit("Edit");
    reveal_strlit("MultiEdit");
    reveal_strlit("LS");
    reveal_strlit("Glob");
    reveal_strlit("Grep");
    assert("Bash"@.len() == 4);
    assert("ReadFile"@.len() == 8);
    assert("WriteFile"@.len() == 9);
    assert("Edit"@.len() == 4);
    assert("MultiEdit"@.len() == 9);
    assert("LS"@.len() == 2);
    assert("Glob"@.len() == 4);
    assert("Grep"@.len() == 4);
    assert("Bash"@[0] == 'B');
    assert("Edit"@[0] == 'E');
    assert("Glob"@[0] == 'G');
    assert("Glob"@[1] == 'l');
    assert("Grep"@[0] == 'G');
    assert("Grep"@[1] == 'r');
    assert("MultiEdit"@[0] == 'M');
    assert("WriteFile"@[0] == 'W');
    let p = json::words_at(a, "pattern"@);
    let b = or_here(json::words_at(a, "path"@));
    let s1 = p + " under "@ + b;
    let s2 = p + " in "@ + b;
    assert(s1.subrange(0, p.len() as int) =~= p);
    assert(s2.subrange(0, p.len() as int) =~= p);
    assert(s1.subrange(s1.len() - b.len(), s1.len() as int) =~= b);
    assert(s2.subrange(s2.len() - b.len(), s2.len() as int) =~= b);
}

/// A tool that is given no place works in the one it is in.
pub proof fn no_place_is_here(path: Seq<char>)
    ensures
        path.len() == 0 ==> or_here(path) == "."@,
        path.len() > 0 ==> or_here(path) == path,
{
}

/// A search for files is of files alone, under the place given. A pattern that
/// has a slash in it is held against the path; any other, and what follows a
/// leading `**/`, against the name.
pub proof fn files_are_sought_by_name_or_path(pattern: Seq<char>, base: Seq<char>)
    ensures
        find_args(pattern, base).len() == 5,
        find_args(pattern, base)[0] == base,
        find_args(pattern, base)[1] == "-type"@,
        find_args(pattern, base)[2] == "f"@,
        text::has(pattern, "/"@) == false ==> find_args(pattern, base)[3] == "-name"@ && find_args(
            pattern,
            base,
        )[4] == pattern,
        text::has(pattern, "/"@) && !text::starts(pattern, "**/"@) ==> find_args(pattern, base)[3]
            == "-path"@ && find_args(pattern, base)[4] == "*/"@ + pattern,
        text::starts(pattern, "**/"@) ==> find_args(pattern, base)[3] == "-name"@ && find_args(
            pattern,
            base,
        )[4] == pattern.skip(3),
{
    reveal_strlit("**/");
    reveal_strlit("/");
    if text::has(pattern, "/"@) == false && text::starts(pattern, "**/"@) {
        assert(pattern.subrange(0, 3) == "**/"@);
        assert(pattern[2] == pattern.subrange(0, 3)[2]);
        assert(pattern.subrange(2, 3) =~= "/"@);
        assert(text::occurs_at(pattern, "/"@, 2));
    }
}

/// A search in files is recursive and ends in the pattern and the place. It
/// counts where counts were asked for, prints lines where content was, and names
/// files otherwise; case, line numbers, lines round a match and which files are
/// searched go by what was asked.
pub proof fn lines_are_sought_as_asked(a: Json)
    ensures
        ({
            let r = grep_args(a);
            let n = r.len() as int;
            let content = json::text_at(a, "output_mode"@) == Some("content"@);
            &&& n >= 4
            &&& r[0] == "-r"@
            &&& r[n - 3] == "-E"@
            &&& r[n - 2] == json::words_at(a, "pattern"@)
            &&& r[n - 1] == or_here(json::words_at(a, "path"@))
            &&& json::text_at(a, "output_mode"@) == Some("count"@) ==> r[1] == "-c"@
            &&& json::text_at(a, "output_mode"@) != Some("count"@) && !content ==> r[1] == "-l"@
            &&& content && json::flag_at(a, "-n"@) ==> r[1] == "-n"@
            &&& json::flag_at(a, "-i"@) ==> r.contains("-i"@)
            &&& content && json::num_at(a, "-C"@) is Some ==> r.contains(
                "-C"@ + text::dec((json::num_at(a, "-C"@)->0) as nat),
            )
            &&& content && json::num_at(a, "-C"@) is None && json::num_at(a, "-B"@) is Some
                ==> r.contains("-B"@ + text::dec((json::num_at(a, "-B"@)->0) as nat))
            &&& content && json::num_at(a, "-C"@) is None && json::num_at(a, "-A"@) is Some
                ==> r.contains("-A"@ + text::dec((json::num_at(a, "-A"@)->0) as nat))
            &&& json::text_at(a, "glob"@) is Some ==> r[n - 4] == "--include="@ + (json::text_at(
                a,
                "glob"@,
            )->0)
            &&& n == 4 + (if !content || json::flag_at(a, "-n"@) {
                1int
            } else {
                0
            }) + (if json::flag_at(a, "-i"@) {
                1int
            } else {
                0
            }) + (if !content {
                0int
            } else if json::num_at(a, "-C"@) is Some {
                1
            } else {
                (if json::num_at(a, "-B"@) is Some {
                    1int
                } else {
                    0
                }) + (if json::num_at(a, "-A"@) is Some {
                    1int
                } else {
                    0
                })
            }) + (if json::text_at(a, "glob"@) is Some {
                1int
            } else {
                0
            })
        }),
{
    reveal_strlit("count");
    reveal_strlit("content");
    assert("count"@.len() == 5 && "content"@.len() == 7);
    let r = grep_args(a);
    let content = json::text_at(a, "output_mode"@) == Some("content"@);
    let at1: int = if !content || json::flag_at(a, "-n"@) {
        2
    } else {
        1
    };
    let at2: int = if json::flag_at(a, "-i"@) {
        at1 + 1
    } else {
        at1
    };
    if json::flag_at(a, "-i"@) {
        assert(r[at1] == "-i"@);
    }
    if content {
        match json::num_at(a, "-C"@) {
            Some(n) => {
                assert(r[at2] == "-C"@ + text::dec(n as nat));
            },
            None => {
                let at3: int = match json::num_at(a, "-B"@) {
                    Some(n) => {
                        assert(r[at2] == "-B"@ + text::dec(n as nat));
                        at2 + 1
                    },
                    None => at2,
                };
                match json::num_at(a, "-A"@) {
                    Some(n) => {
                        assert(r[at3] == "-A"@ + text::dec(n as nat));
                    },
                    None => {},
                }
            },
        }
    }
}

/// A command is told to have gone well exactly where it ended with nothing amiss,
/// and whatever came of it is told: what it printed, how it ended, or why it did
/// not start.
pub proof fn a_command_is_told_as_it_ended(command: Seq<char>, secs: nat, ran: Ran)
    ensures
        ({
            let o = bash_outcome(command, secs, ran);
            &&& o.ok <==> (ran matches Ran::Ended(code, _) && code == Some(0i32))
            &&& text::ends(o.arg, command)
            &&& o.meta.len() == 1
            &&& match ran {
                Ran::NotSpawned(e) => o.body == e@ && o.meta[0] == "failed to spawn"@,
                Ran::NotWaited(e) => o.body == e@ && o.meta[0] == "failed to wait"@,
                Ran::Ended(code, out) => o.body == out@ && (code matches Some(c) ==> text::ends(
                    o.meta[0],
                    text::signed(c as int),
                )) && (code is None ==> o.meta[0] == "killed"@),
                Ran::TimedOut(out) => text::has(o.body, "up to 3600"@) && text::has(
                    o.meta[0],
                    text::dec(secs),
                ) && (text::trimmed(out@).len() > 0 ==> text::starts(o.body, out@)),
            }
        }),
{
    let o = bash_outcome(command, secs, ran);
    assert(o.arg.subrange(o.arg.len() - command.len(), o.arg.len() as int) =~= command);
    match ran {
        Ran::Ended(code, out) => {
            if code is Some {
                let d = text::signed(code->0 as int);
                let m = "exit "@ + d;
                assert(o.meta[0] == m);
                assert(m.subrange(m.len() - d.len(), m.len() as int) =~= d);
            }
        },
        Ran::TimedOut(out) => {
            let a = "Pass a larger timeout (seconds, up to "@;
            let b = text::dec(3600);
            let c = ") if this needs longer."@;
            let hint = a + b + c;
            let p = "up to 3600"@;
            lemma_3600();
            reveal_strlit("Pass a larger timeout (seconds, up to ");
            reveal_strlit("up to 3600");
            reveal_strlit("3600");
            assert(hint.subrange(32, 42) =~= p);
            assert(text::occurs_at(hint, p, 32));
            text::lemma_has_right(out@ + "\n["@, hint, p);
            text::lemma_has_left(out@ + "\n["@ + hint, "]"@, p);
            let x = "timed out after "@;
            let y = text::dec(secs);
            let z = "s, killed"@;
            text::lemma_has_self(y);
            text::lemma_has_right(x, y, y);
            text::lemma_has_left(x + y, z, y);
            if text::trimmed(out@).len() > 0 {
                assert(o.body.subrange(0, out@.len() as int) =~= out@);
            }
        },
        _ => {},
    }
}

proof fn lemma_3600()
    ensures
        text::dec(3600) == "3600"@,
{
    reveal_strlit("3600");
    reveal_with_fuel(text::dec, 5);
    assert(text::dec(3600) =~= "3600"@);
}

/// A question mark stands for one byte, a star for any number of them, and every
/// other byte for itself; what is left of the pattern is held against what is
/// left of the name.
pub proof fn patterns_match_byte_by_byte(c: u8, p: Seq<u8>, d: u8, s: Seq<u8>)
    ensures
        c == 63 ==> globs(seq![c] + p, seq![d] + s) == globs(p, s),
        c != 63 && c != 42 ==> globs(seq![c] + p, seq![d] + s) == (c == d && globs(p, s)),
        c != 42 ==> !globs(seq![c] + p, Seq::empty()),
        globs(p, s) ==> globs(seq![42u8] + p, s),
        globs(seq![42u8] + p, s) ==> globs(seq![42u8] + p, seq![d] + s),
        globs(seq![42u8] + p, seq![d] + s) ==> globs(p, seq![d] + s) || globs(seq![42u8] + p, s),
        globs(Seq::empty(), s) <==> s.len() == 0,
{
    let cp = seq![c] + p;
    let ds = seq![d] + s;
    let sp = seq![42u8] + p;
    assert(cp.skip(1) =~= p);
    assert(sp.skip(1) =~= p);
    assert(ds.skip(1) =~= s);
    if globs(p, s) {
        assert(s.skip(0) =~= s);
        assert(globs(sp.skip(1), s.skip(0)));
    }
    if globs(sp, s) {
        let i = choose|i: int| 0 <= i <= s.len() && globs(sp.skip(1), #[trigger] s.skip(i));
        assert(ds.skip(i + 1) =~= s.skip(i));
        assert(globs(sp.skip(1), ds.skip(i + 1)));
    }
    if globs(sp, ds) {
        let i = choose|i: int| 0 <= i <= ds.len() && globs(sp.skip(1), #[trigger] ds.skip(i));
        if i == 0 {
            assert(ds.skip(0) =~= ds);
        } else {
            assert(ds.skip(i) =~= s.skip(i - 1));
            assert(globs(sp.skip(1), s.skip(i - 1)));
        }
    }
}

/// What is found is shown with the newest first, all of it and nothing twice.
pub proof fn the_newest_is_shown_first(v: Seq<(int, Seq<char>)>)
    ensures
        forall|i: int, j: int|
            0 <= i < j < newest_first(v).len() ==> (#[trigger] newest_first(v)[i]).0 >= (
            #[trigger] newest_first(v)[j]).0,
        newest_first(v).to_multiset() == v.to_multiset(),
        newest_first(v).len() == v.len(),
    decreases v.len(),
{
    if v.len() > 0 {
        let front = v.drop_last();
        let t = v.last();
        the_newest_is_shown_first(front);
        lemma_found_in_order(newest_first(front), t, 0);
        assert(front.push(t) =~= v);
        front.to_multiset_ensures();
        newest_first(front).to_multiset_ensures();
        assert(newest_first(v).to_multiset() =~= v.to_multiset());
    } else {
        assert(newest_first(v) =~= v);
    }
}

proof fn lemma_found_in_order(v: Seq<(int, Seq<char>)>, t: (int, Seq<char>), b: int)
    requires
        forall|i: int, j: int| 0 <= i < j < v.len() ==> (#[trigger] v[i]).0 >= (#[trigger] v[j]).0,
    ensures
        forall|i: int, j: int|
            0 <= i < j < found_in(v, t).len() ==> (#[trigger] found_in(v, t)[i]).0 >= (
            #[trigger] found_in(v, t)[j]).0,
        found_in(v, t).to_multiset() == v.to_multiset().insert(t),
        found_in(v, t).len() == v.len() + 1,
        forall|i: int|
            0 <= i < found_in(v, t).len() ==> (#[trigger] found_in(v, t)[i]).0 <= t.0 || v.contains(
                found_in(v, t)[i],
            ),
        (v.len() > 0 ==> v.last().0 >= b) && t.0 >= b ==> forall|i: int|
            0 <= i < found_in(v, t).len() ==> (#[trigger] found_in(v, t)[i]).0 >= b,
    decreases v.len(),
{
    v.to_multiset_ensures();
    if v.len() > 0 && v.last().0 < t.0 {
        let front = v.drop_last();
        lemma_found_in_order(front, t, v.last().0);
        let r = found_in(front, t);
        let all = found_in(v, t);
        front.to_multiset_ensures();
        r.to_multiset_ensures();
        assert(front.push(v.last()) =~= v);
        assert(all == r.push(v.last()));
        assert(all.to_multiset() =~= v.to_multiset().insert(t));
        if front.len() > 0 {
            assert(front.last() == v[front.len() - 1]);
            assert(v.last() == v[v.len() - 1]);
        }
        assert forall|i: int| 0 <= i < r.len() implies (#[trigger] r[i]).0 >= v.last().0 by {
        }
        assert forall|i: int, j: int| 0 <= i < j < all.len() implies (#[trigger] all[i]).0 >= (
        #[trigger] all[j]).0 by {
            if j < r.len() {
                assert(r[i].0 >= r[j].0);
            } else {
                assert(r[i].0 >= v.last().0);
            }
        }
        assert forall|i: int| 0 <= i < all.len() implies (#[trigger] all[i]).0 <= t.0
            || v.contains(all[i]) by {
            if i < r.len() {
                if front.contains(r[i]) {
                    let k = choose|k: int| 0 <= k < front.len() && front[k] == r[i];
                    assert(v[k] == r[i]);
                }
            } else {
                assert(v[v.len() - 1] == all[i]);
            }
        }
    } else {
        let all = found_in(v, t);
        assert(all == v.push(t));
        assert forall|i: int, j: int| 0 <= i < j < all.len() implies (#[trigger] all[i]).0 >= (
        #[trigger] all[j]).0 by {
            if j == v.len() {
                assert(v[v.len() - 1] == v.last());
                assert(v[i].0 >= v[v.len() - 1].0);
            }
        }
        assert forall|i: int| 0 <= i < all.len() implies (#[trigger] all[i]).0 <= t.0
            || v.contains(all[i]) by {
            if i < v.len() {
                assert(v[i] == all[i]);
            }
        }
        if (v.len() > 0 ==> v.last().0 >= b) && t.0 >= b {
            assert forall|i: int| 0 <= i < all.len() implies (#[trigger] all[i]).0 >= b by {
                if i < v.len() {
                    assert(v[v.len() - 1] == v.last());
                    assert(v[i].0 >= v[v.len() - 1].0 || i == v.len() - 1);
                }
            }
        }
    }
}

/// Of a list that is too long the front is shown, and all of any other.
pub proof fn a_long_list_is_cut_at_its_end<A>(v: Seq<A>, n: nat)
    ensures
        v.len() <= n ==> up_to(v, n) == v,
        v.len() > n ==> up_to(v, n) == v.take(n as int),
{
}

/// A directory is listed with a slash behind it, and a file as it is.
pub proof fn directories_are_marked(name: Seq<char>)
    ensures
        entry_text(name, true) == name + "/"@,
        entry_text(name, false) == name,
{
}

/// The texts of a list are taken in its order, and nothing else of it.
pub proof fn only_texts_are_taken(
    a: Seq<Json>,
    b: Seq<Json>,
    x: Json,
)
    ensures
        texts_among(a + b) == texts_among(a) + texts_among(b),
        texts_among(seq![x]) == (if json::as_text(x) is Some {
            seq![json::as_text(x)->0]
        } else {
            Seq::<Seq<char>>::empty()
        }),
        texts_among(Seq::<Json>::empty()).len() == 0,
    decreases b.len(),
{
    reveal_with_fuel(texts_among, 2);
    assert(seq![x].drop_last() =~= Seq::<Json>::empty());
    assert(texts_among(Seq::<Json>::empty()).len() == 0);
    if b.len() == 0 {
        assert(a + b =~= a);
        assert(texts_among(a + b) =~= texts_among(a) + texts_among(b));
    } else {
        let all = a + b;
        assert(all.drop_last() =~= a + b.drop_last());
        assert(all.last() == b.last());
        only_texts_are_taken(a, b.drop_last(), x);
        assert(texts_among(all) =~= texts_among(a) + texts_among(b));
    }
}

/// Every entry of a directory is listed, in order, but those that a pattern
/// says to ignore.
pub proof fn only_what_is_ignored_is_left_out(
    a: Seq<(String, bool)>,
    b: Seq<(String, bool)>,
    x: (String, bool),
    ignore: Seq<Seq<char>>,
)
    ensures
        entries_kept(a + b, ignore) == entries_kept(a, ignore) + entries_kept(b, ignore),
        entries_kept(seq![x], ignore) == (if !ignored(ignore, x.0@) {
            seq![entry_text(x.0@, x.1)]
        } else {
            Seq::<Seq<char>>::empty()
        }),
        entries_kept(Seq::<(String, bool)>::empty(), ignore).len() == 0,
    decreases b.len(),
{
    reveal_with_fuel(entries_kept, 2);
    assert(seq![x].drop_last() =~= Seq::<(String, bool)>::empty());
    assert(entries_kept(Seq::<(String, bool)>::empty(), ignore).len() == 0);
    if b.len() == 0 {
        assert(a + b =~= a);
        assert(entries_kept(a + b, ignore) =~= entries_kept(a, ignore) + entries_kept(b, ignore));
    } else {
        let all = a + b;
        assert(all.drop_last() =~= a + b.drop_last());
        assert(all.last() == b.last());
        only_what_is_ignored_is_left_out(a, b.drop_last(), x, ignore);
        assert(entries_kept(all, ignore) =~= entries_kept(a, ignore) + entries_kept(b, ignore));
    }
}

} // verus!
