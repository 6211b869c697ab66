//! The composer's draft: what a key does to it beyond plain editing. History,
//! backward search and completion of `@name` and `/command`.

use crate::common;
use crate::common::Roster;
use crate::text;
use vstd::prelude::*;
use vstd::string::*;

verus! {

/// Matches for the word under the cursor that are being cycled through.
#[derive(Debug)]
pub struct Cycle {
    /// Where the word begins, in characters.
    pub start: usize,
    pub candidates: Vec<String>,
    pub at: usize,
}

/// What the composer remembers beside the draft itself.
#[derive(Debug)]
pub struct Input {
    /// Lines sent, oldest first.
    pub history: Vec<String>,
    /// The line of the history that is shown.
    pub hist_idx: Option<usize>,
    /// The draft that was left for the history.
    pub saved: Option<String>,
    /// What is being searched for, as long as only searching goes on.
    pub sought: Option<String>,
    pub tab: Option<Cycle>,
}

pub struct CycleView {
    pub start: nat,
    pub candidates: Seq<Seq<char>>,
    pub at: nat,
}

pub struct InputView {
    pub history: Seq<Seq<char>>,
    pub at: Option<nat>,
    pub saved: Option<Seq<char>>,
    pub sought: Option<Seq<char>>,
    pub tab: Option<CycleView>,
}

impl View for Input {
    type V = InputView;

    open spec fn view(&self) -> InputView {
        InputView {
            history: text::texts(self.history@),
            at: match self.hist_idx {
                Some(i) => Some(i as nat),
                None => None,
            },
            saved: text::text_view(self.saved),
            sought: text::text_view(self.sought),
            tab: match self.tab {
                Some(c) => Some(
                    CycleView {
                        start: c.start as nat,
                        candidates: text::texts(c.candidates@),
                        at: c.at as nat,
                    },
                ),
                None => None,
            },
        }
    }
}

/// A key, as far as the composer tells them apart.
#[derive(Clone, Copy, Debug, PartialEq, Eq, Structural)]
pub enum Key {
    /// Let go of: nothing happens.
    Released,
    Enter,
    Tab,
    BackTab,
    Up,
    Down,
    /// A letter with the control key.
    Ctrl(char),
    Other,
}

/// What a key does.
#[derive(Debug)]
pub enum Done {
    Nothing,
    /// Send the line; the draft is empty again.
    Submit(String),
    Quit,
    /// The draft becomes this, the cursor goes to its end.
    Draft(String),
    /// The draft becomes this, the cursor goes there.
    Place { draft: String, cursor: u16 },
    /// Delete the character under the cursor.
    DeleteNext,
    /// Plain editing.
    Edit,
}

pub enum DoneView {
    Nothing,
    Submit(Seq<char>),
    Quit,
    Draft(Seq<char>),
    Place { draft: Seq<char>, cursor: nat },
    DeleteNext,
    Edit,
}

impl View for Done {
    type V = DoneView;

    open spec fn view(&self) -> DoneView {
        match *self {
            Done::Nothing => DoneView::Nothing,
            Done::Submit(s) => DoneView::Submit(s@),
            Done::Quit => DoneView::Quit,
            Done::Draft(s) => DoneView::Draft(s@),
            Done::Place { draft, cursor } => DoneView::Place {
                draft: draft@,
                cursor: cursor as nat,
            },
            Done::DeleteNext => DoneView::DeleteNext,
            Done::Edit => DoneView::Edit,
        }
    }
}

/// What is remembered points at what there is.
pub open spec fn sound(v: InputView) -> bool {
    &&& v.at matches Some(i) ==> i < v.history.len()
    &&& v.tab matches Some(c) ==> c.at < c.candidates.len()
}

/// One line back in the history; the draft is kept for the way forward.
pub open spec fn backed(v: InputView, draft: Seq<char>) -> (InputView, DoneView) {
    if v.history.len() == 0 {
        (v, DoneView::Nothing)
    } else {
        let (at, saved) = match v.at {
            Some(i) => (i, v.saved),
            None => (v.history.len(), Some(draft)),
        };
        if at > 0 {
            (
                InputView { at: Some((at - 1) as nat), saved, ..v },
                DoneView::Draft(v.history[at - 1]),
            )
        } else {
            (InputView { at: Some(at), saved, ..v }, DoneView::Nothing)
        }
    }
}

/// One line forward; past the newest comes the draft that was left.
pub open spec fn advanced(v: InputView) -> (InputView, DoneView) {
    match v.at {
        None => (v, DoneView::Nothing),
        Some(i) => if i + 1 < v.history.len() {
            (InputView { at: Some(i + 1), ..v }, DoneView::Draft(v.history[i as int + 1]))
        } else {
            (
                InputView { at: None, saved: None, ..v },
                DoneView::Draft(
                    match v.saved {
                        Some(s) => s,
                        None => ""@,
                    },
                ),
            )
        },
    }
}

/// The newest of the first `n` lines that holds `query`.
pub open spec fn newest_with(history: Seq<Seq<char>>, query: Seq<char>, n: nat) -> Option<nat>
    decreases n,
{
    if n == 0 {
        None
    } else if text::has(history[n - 1], query) {
        Some((n - 1) as nat)
    } else {
        newest_with(history, query, (n - 1) as nat)
    }
}

/// To the newest line that holds the draft, then one further back on each
/// repeat: what is searched for stays what it was at first.
pub open spec fn searched(v: InputView, draft: Seq<char>) -> (InputView, DoneView) {
    let query = match v.sought {
        Some(q) => q,
        None => draft,
    };
    if query.len() == 0 {
        (v, DoneView::Nothing)
    } else {
        let (from, saved) = match v.at {
            Some(i) => (i, v.saved),
            None => (v.history.len(), Some(draft)),
        };
        match newest_with(v.history, query, from) {
            Some(i) => (
                InputView { at: Some(i), saved, sought: Some(query), ..v },
                DoneView::Draft(v.history[i as int]),
            ),
            None => (InputView { saved, sought: Some(query), ..v }, DoneView::Nothing),
        }
    }
}

// ---------------------------------------------------------------------
// Completion
// ---------------------------------------------------------------------

/// Where the word that ends at `i` begins.
pub open spec fn word_start(s: Seq<char>, i: nat) -> nat
    decreases i,
{
    if i > 0 && !text::white(s[i - 1]) {
        word_start(s, (i - 1) as nat)
    } else {
        i
    }
}

/// Where the word that goes on at `i` ends.
pub open spec fn word_stop(s: Seq<char>, i: nat) -> nat
    decreases s.len() - i,
{
    if i < s.len() && !text::white(s[i as int]) {
        word_stop(s, i + 1)
    } else {
        i
    }
}

pub open spec fn least(a: nat, b: nat) -> nat {
    if a < b {
        a
    } else {
        b
    }
}

/// The word touching `cursor`: where it begins, and its text.
pub open spec fn word_at(s: Seq<char>, cursor: nat) -> (nat, Seq<char>) {
    let c = least(cursor, s.len());
    let start = word_start(s, c);
    (start, s.subrange(start as int, word_stop(s, c) as int))
}

/// The commands that are completed.
pub open spec fn command_names() -> Seq<Seq<char>> {
    seq![
        "/task"@,
        "/tasks"@,
        "/peers"@,
        "/activity"@,
        "/artifact"@,
        "/artifacts"@,
        "/note"@,
        "/notes"@,
        "/clear"@,
        "/keys"@,
        "/reply"@,
        "/react"@,
        "/vote"@,
        "/quit"@,
        "/exit"@,
    ]
}

/// The texts of `v` that begin with `prefix`.
pub open spec fn beginning(v: Seq<Seq<char>>, prefix: Seq<char>) -> Seq<Seq<char>>
    decreases v.len(),
{
    if v.len() == 0 {
        seq![]
    } else if text::starts(v.last(), prefix) {
        beginning(v.drop_last(), prefix).push(v.last())
    } else {
        beginning(v.drop_last(), prefix)
    }
}

/// The names to choose from after an `@`: the roster's, then those for
/// everyone.
pub open spec fn tag_names(names: Seq<Seq<char>>) -> Seq<Seq<char>> {
    let all = names + seq!["all"@, "litter"@, "cats"@];
    Seq::new(all.len(), |i: int| "@"@ + all[i])
}

/// A command that takes a cat's name as its argument.
pub open spec fn takes_a_name(draft: Seq<char>) -> bool {
    text::starts(draft, "/tasks "@) || text::starts(draft, "/activity "@) || text::starts(
        draft,
        "/dm "@,
    )
}

/// What the word that begins at `start` may become.
pub open spec fn matches_for(
    draft: Seq<char>,
    start: nat,
    word: Seq<char>,
    names: Seq<Seq<char>>,
) -> Seq<Seq<char>> {
    if text::starts(word, "/"@) {
        beginning(command_names(), word)
    } else if text::starts(word, "@"@) {
        beginning(tag_names(names), word)
    } else if takes_a_name(draft) && start == text::first(draft, ' ') + 1 {
        beginning(names, word)
    } else {
        seq![]
    }
}

/// The draft with the word from `start` that touches `cursor` replaced, and
/// where the cursor goes.
pub open spec fn spliced(draft: Seq<char>, start: nat, cursor: nat, word: Seq<char>) -> DoneView {
    DoneView::Place {
        draft: draft.take(least(start, draft.len()) as int) + word + draft.skip(
            word_stop(draft, least(cursor, draft.len())) as int,
        ),
        cursor: (start + word.len()) % 65536,
    }
}

/// The next match, or the one before.
pub open spec fn turned(at: nat, n: nat, backward: bool) -> nat {
    if backward {
        ((at + n - 1) % n as int) as nat
    } else {
        (at + 1) % n
    }
}

/// Complete the word under the cursor, or go on to the next match.
pub open spec fn completed(
    v: InputView,
    names: Seq<Seq<char>>,
    draft: Seq<char>,
    cursor: nat,
    backward: bool,
) -> (InputView, DoneView) {
    match v.tab {
        Some(c) => {
            let at = turned(c.at, c.candidates.len(), backward);
            (
                InputView { tab: Some(CycleView { at, ..c }), ..v },
                spliced(draft, c.start, cursor, c.candidates[at as int]),
            )
        },
        None => {
            let (start, word) = word_at(draft, cursor);
            let found = matches_for(draft, start, word, names);
            if word.len() == 0 || found.len() == 0 {
                (v, DoneView::Nothing)
            } else {
                (
                    InputView { tab: Some(CycleView { start, candidates: found, at: 0 }), ..v },
                    spliced(draft, start, cursor, found[0]),
                )
            }
        },
    }
}

/// What a key does to what is remembered, and what it asks for.
pub open spec fn handled(
    v: InputView,
    key: Key,
    names: Seq<Seq<char>>,
    draft: Seq<char>,
    cursor: nat,
) -> (InputView, DoneView) {
    let w = InputView { sought: None, ..v };
    let u = InputView { tab: None, ..w };
    match key {
        Key::Released => (v, DoneView::Nothing),
        Key::Tab => completed(w, names, draft, cursor, false),
        Key::BackTab => completed(w, names, draft, cursor, true),
        Key::Enter => {
            let line = text::trimmed(draft);
            if line.len() == 0 {
                (u, DoneView::Nothing)
            } else {
                (
                    InputView {
                        history: v.history.push(line),
                        at: None,
                        saved: None,
                        sought: None,
                        tab: None,
                    },
                    DoneView::Submit(line),
                )
            }
        },
        Key::Up => backed(u, draft),
        Key::Down => advanced(u),
        Key::Ctrl(c) => if c == 'd' {
            (
                u,
                if draft.len() == 0 {
                    DoneView::Quit
                } else {
                    DoneView::DeleteNext
                },
            )
        } else if c == 'c' {
            (InputView { at: None, saved: None, ..u }, DoneView::Draft(""@))
        } else if c == 'p' {
            backed(u, draft)
        } else if c == 'n' {
            advanced(u)
        } else if c == 'r' {
            searched(InputView { tab: None, ..v }, draft)
        } else {
            (u, DoneView::Edit)
        },
        Key::Other => (u, DoneView::Edit),
    }
}

/// The word touching `cursor` (a character index) in `s`: where it begins and
/// its text, split on white space.
pub fn current_word(s: &str, cursor: usize) -> (r: (usize, String))
    ensures
        (r.0 as nat, r.1@) == word_at(s@, cursor as nat),
{
    let v = text::chars_of(s);
    let c: usize = if cursor < v.len() {
        cursor
    } else {
        v.len()
    };
    let mut start: usize = c;
    while start > 0 && !text::is_white(v[start - 1])
        invariant
            start <= c <= v.len(),
            word_start(v@, c as nat) == word_start(v@, start as nat),
        decreases start,
    {
        start = start - 1;
    }
    let end: usize = stop_of(&v, c);
    (start, text::slice_text(&v, start, end))
}

fn stop_of(v: &Vec<char>, c: usize) -> (end: usize)
    requires
        c <= v.len(),
    ensures
        end == word_stop(v@, c as nat),
        c <= end <= v.len(),
{
    let mut end: usize = c;
    while end < v.len() && !text::is_white(v[end])
        invariant
            c <= end <= v.len(),
            word_stop(v@, c as nat) == word_stop(v@, end as nat),
        decreases v.len() - end,
    {
        end = end + 1;
    }
    end
}

fn beginning_of(v: &Vec<String>, prefix: &str) -> (out: Vec<String>)
    ensures
        text::texts(out@) == beginning(text::texts(v@), prefix@),
{
    let ghost all = text::texts(v@);
    let mut out = text::none();
    let mut i: usize = 0;
    assert(all.take(0) =~= Seq::<Seq<char>>::empty());
    assert(text::texts(out@) =~= Seq::<Seq<char>>::empty());
    while i < v.len()
        invariant
            i <= v.len(),
            all == text::texts(v@),
            text::texts(out@) == beginning(all.take(i as int), prefix@),
        decreases v.len() - i,
    {
        assert(all.take(i + 1).drop_last() =~= all.take(i as int));
        assert(all.take(i + 1).last() == v@[i as int]@);
        if text::starts_with(v[i].as_str(), prefix) {
            text::put(&mut out, v[i].as_str());
        }
        i = i + 1;
    }
    assert(all.take(i as int) =~= all);
    out
}

fn commands() -> (out: Vec<String>)
    ensures
        text::texts(out@) == command_names(),
{
    let mut out = text::none();
    text::put(&mut out, "/task");
    text::put(&mut out, "/tasks");
    text::put(&mut out, "/peers");
    text::put(&mut out, "/activity");
    text::put(&mut out, "/artifact");
    text::put(&mut out, "/artifacts");
    text::put(&mut out, "/note");
    text::put(&mut out, "/notes");
    text::put(&mut out, "/clear");
    text::put(&mut out, "/keys");
    text::put(&mut out, "/reply");
    text::put(&mut out, "/react");
    text::put(&mut out, "/vote");
    text::put(&mut out, "/quit");
    text::put(&mut out, "/exit");
    assert(text::texts(out@) =~= command_names());
    out
}

fn tagged_names(roster: &Roster) -> (out: Vec<String>)
    ensures
        text::texts(out@) == tag_names(common::names_in(roster@)),
{
    let mut all = roster.names();
    let ghost names = text::texts(all@);
    text::put(&mut all, "all");
    text::put(&mut all, "litter");
    text::put(&mut all, "cats");
    assert(text::texts(all@) =~= names + seq!["all"@, "litter"@, "cats"@]);
    let ghost want = tag_names(names);
    let mut out = text::none();
    let mut i: usize = 0;
    assert(want.take(0) =~= Seq::<Seq<char>>::empty());
    while i < all.len()
        invariant
            i <= all.len(),
            text::texts(all@) == names + seq!["all"@, "litter"@, "cats"@],
            want == tag_names(names),
            want.len() == all@.len(),
            text::texts(out@) == want.take(i as int),
        decreases all.len() - i,
    {
        let one = String::from_str("@").concat(all[i].as_str());
        assert(text::texts(all@)[i as int] == all@[i as int]@);
        assert(want[i as int] == one@);
        assert(want.take(i + 1) =~= want.take(i as int).push(one@));
        text::put(&mut out, one.as_str());
        i = i + 1;
    }
    assert(want.take(i as int) =~= want);
    out
}

fn matches_of(draft: &str, start: usize, word: &str, roster: &Roster) -> (out: Vec<String>)
    ensures
        text::texts(out@) == matches_for(
            draft@,
            start as nat,
            word@,
            common::names_in(roster@),
        ),
{
    if text::starts_with(word, "/") {
        return beginning_of(&commands(), word);
    }
    if text::starts_with(word, "@") {
        return beginning_of(&tagged_names(roster), word);
    }
    let named = text::starts_with(draft, "/tasks ") || text::starts_with(draft, "/activity ")
        || text::starts_with(draft, "/dm ");
    if named {
        let v = text::chars_of(draft);
        assert(v@.skip(0) =~= v@);
        let at: usize = text::find_char(&v, 0, ' ');
        if start > 0 && start - 1 == at {
            return beginning_of(&roster.names(), word);
        }
    }
    text::none()
}

fn splice(draft: &str, start: usize, cursor: usize, word: &str) -> (r: Done)
    ensures
        r@ == spliced(draft@, start as nat, cursor as nat, word@),
{
    let v = text::chars_of(draft);
    let a: usize = if start < v.len() {
        start
    } else {
        v.len()
    };
    let c: usize = if cursor < v.len() {
        cursor
    } else {
        v.len()
    };
    let b: usize = stop_of(&v, c);
    let before = text::slice_text(&v, 0, a);
    let after = text::slice_text(&v, b, v.len());
    assert(before@ =~= draft@.take(a as int));
    assert(after@ =~= draft@.skip(b as int));
    let n: usize = word.unicode_len();
    let place: u128 = (start as u128 + n as u128) % 65536;
    Done::Place {
        draft: before.concat(word).concat(after.as_str()),
        cursor: place as u16,
    }
}

fn find_newest(v: &Vec<String>, query: &str, n: usize) -> (r: Option<usize>)
    requires
        n <= v.len(),
    ensures
        match r {
            Some(i) => newest_with(text::texts(v@), query@, n as nat) == Some(i as nat) && i < n,
            None => newest_with(text::texts(v@), query@, n as nat) is None,
        },
{
    let ghost lines = text::texts(v@);
    let mut i: usize = n;
    while i > 0
        invariant
            i <= n <= v.len(),
            lines == text::texts(v@),
            newest_with(lines, query@, n as nat) == newest_with(lines, query@, i as nat),
        decreases i,
    {
        assert(lines[i - 1] == v@[i - 1]@);
        if text::contains(v[i - 1].as_str(), query) {
            return Some(i - 1);
        }
        i = i - 1;
    }
    None
}

impl Input {
    /// Nothing typed yet.
    pub fn new() -> (r: Input)
        ensures
            r@ == (InputView { history: seq![], at: None, saved: None, sought: None, tab: None }),
            sound(r@),
    {
        let r = Input {
            history: text::none(),
            hist_idx: None,
            saved: None,
            sought: None,
            tab: None,
        };
        assert(r@.history =~= Seq::<Seq<char>>::empty());
        r
    }

    fn history_back(&mut self, draft: &str) -> (r: Done)
        requires
            sound(old(self)@),
        ensures
            (final(self)@, r@) == backed(old(self)@, draft@),
            sound(final(self)@),
    {
        assert(self@.history.len() == self.history@.len());
        if self.history.len() == 0 {
            return Done::Nothing;
        }
        let at: usize = match self.hist_idx {
            Some(i) => i,
            None => {
                self.saved = Some(draft.to_owned());
                self.history.len()
            },
        };
        if at > 0 {
            self.hist_idx = Some(at - 1);
            return Done::Draft(self.history[at - 1].clone());
        }
        self.hist_idx = Some(at);
        Done::Nothing
    }

    fn history_forward(&mut self) -> (r: Done)
        requires
            sound(old(self)@),
        ensures
            (final(self)@, r@) == advanced(old(self)@),
            sound(final(self)@),
    {
        assert(self@.history.len() == self.history@.len());
        match self.hist_idx {
            None => Done::Nothing,
            Some(i) => {
                if i < self.history.len() - 1 {
                    self.hist_idx = Some(i + 1);
                    return Done::Draft(self.history[i + 1].clone());
                }
                self.hist_idx = None;
                match self.saved.take() {
                    Some(s) => Done::Draft(s),
                    None => Done::Draft("".to_owned()),
                }
            },
        }
    }

    fn search_history(&mut self, draft: &str) -> (r: Done)
        requires
            sound(old(self)@),
        ensures
            (final(self)@, r@) == searched(old(self)@, draft@),
            sound(final(self)@),
    {
        assert(self@.history.len() == self.history@.len());
        let query = match &self.sought {
            Some(q) => q.clone(),
            None => draft.to_owned(),
        };
        if query.as_str().is_empty() {
            return Done::Nothing;
        }
        let from: usize = match self.hist_idx {
            Some(i) => i,
            None => {
                self.saved = Some(draft.to_owned());
                self.history.len()
            },
        };
        let found = find_newest(&self.history, query.as_str(), from);
        self.sought = Some(query);
        match found {
            Some(i) => {
                self.hist_idx = Some(i);
                Done::Draft(self.history[i].clone())
            },
            None => Done::Nothing,
        }
    }

    fn complete(&mut self, roster: &Roster, draft: &str, cursor: usize, backward: bool) -> (r: Done)
        requires
            sound(old(self)@),
        ensures
            (final(self)@, r@) == completed(
                old(self)@,
                common::names_in(roster@),
                draft@,
                cursor as nat,
                backward,
            ),
            sound(final(self)@),
    {
        match self.tab.take() {
            Some(c) => {
                let n: usize = c.candidates.len();
                assert(n == text::texts(c.candidates@).len());
                let at: usize = if backward {
                    if c.at == 0 {
                        assert((c.at + n - 1) % n as int == n - 1) by (nonlinear_arith)
                            requires
                                c.at == 0,
                                n > 0,
                        ;
                        n - 1
                    } else {
                        assert((c.at + n - 1) % n as int == c.at - 1) by (nonlinear_arith)
                            requires
                                0 < c.at < n,
                        ;
                        c.at - 1
                    }
                } else {
                    if c.at + 1 == n {
                        assert((c.at + 1) % n as int == 0) by (nonlinear_arith)
                            requires
                                c.at + 1 == n,
                        ;
                        0
                    } else {
                        assert((c.at + 1) % n as int == c.at + 1) by (nonlinear_arith)
                            requires
                                c.at + 1 < n,
                        ;
                        c.at + 1
                    }
                };
                let r = splice(draft, c.start, cursor, c.candidates[at].as_str());
                self.tab = Some(Cycle { start: c.start, candidates: c.candidates, at });
                r
            },
            None => {
                let (start, word) = current_word(draft, cursor);
                if word.as_str().is_empty() {
                    return Done::Nothing;
                }
                let found = matches_of(draft, start, word.as_str(), roster);
                assert(found@.len() == text::texts(found@).len());
                if found.len() == 0 {
                    return Done::Nothing;
                }
                let r = splice(draft, start, cursor, found[0].as_str());
                self.tab = Some(Cycle { start, candidates: found, at: 0 });
                r
            },
        }
    }

    /// Handle one key, the draft and the cursor being as given.
    pub fn handle(&mut self, key: Key, roster: &Roster, draft: &str, cursor: usize) -> (r: Done)
        requires
            sound(old(self)@),
        ensures
            (final(self)@, r@) == handled(
                old(self)@,
                key,
                common::names_in(roster@),
                draft@,
                cursor as nat,
            ),
            sound(final(self)@),
    {
        match key {
            Key::Released => {
                return Done::Nothing;
            },
            Key::Tab => {
                self.sought = None;
                return self.complete(roster, draft, cursor, false);
            },
            Key::BackTab => {
                self.sought = None;
                return self.complete(roster, draft, cursor, true);
            },
            _ => {},
        }
        self.tab = None;
        if let Key::Ctrl('r') = key {
            return self.search_history(draft);
        }
        self.sought = None;
        match key {
            Key::Enter => {
                let line = text::trim(draft);
                if line.as_str().is_empty() {
                    return Done::Nothing;
                }
                let ghost was = self@.history;
                text::put(&mut self.history, line.as_str());
                self.hist_idx = None;
                self.saved = None;
                Done::Submit(line)
            },
            Key::Up => self.history_back(draft),
            Key::Down => self.history_forward(),
            Key::Ctrl(c) => {
                if c == 'd' {
                    if draft.is_empty() {
                        Done::Quit
                    } else {
                        Done::DeleteNext
                    }
                } else if c == 'c' {
                    self.hist_idx = None;
                    self.saved = None;
                    Done::Draft("".to_owned())
                } else if c == 'p' {
                    self.history_back(draft)
                } else if c == 'n' {
                    self.history_forward()
                } else {
                    Done::Edit
                }
            },
            _ => Done::Edit,
        }
    }
}

/// Going back and forward again brings back what was there: the draft that was
/// left, or the line of the history that was shown, with everything else
/// remembered as it was. From the oldest line there is no way back.
pub proof fn forward_undoes_back(v: InputView, draft: Seq<char>)
    requires
        sound(v),
        v.history.len() > 0,
        v.at != Some(0nat),
    ensures
        ({
            let (w, shown) = backed(v, draft);
            match v.at {
                None => {
                    &&& shown == DoneView::Draft(v.history.last())
                    &&& advanced(w) == (
                        InputView { saved: None, ..v },
                        DoneView::Draft(draft),
                    )
                },
                Some(i) => {
                    &&& shown == DoneView::Draft(v.history[i - 1])
                    &&& advanced(w) == (v, DoneView::Draft(v.history[i as int]))
                },
            }
        }),
{
}

/// Each press of the search finds the newest line, older than the one before,
/// that holds the draft it began with; and that draft is kept for the way
/// forward.
pub proof fn a_search_goes_further_back(v: InputView, draft: Seq<char>)
    requires
        sound(v),
        v.at is None,
        v.sought is None,
        draft.len() > 0,
    ensures
        ({
            let (w, shown) = searched(v, draft);
            match newest_with(v.history, draft, v.history.len()) {
                None => shown == DoneView::Nothing,
                Some(i) => {
                    let line = v.history[i as int];
                    let (x, next) = searched(w, line);
                    &&& i < v.history.len()
                    &&& shown == DoneView::Draft(line)
                    &&& text::has(line, draft)
                    &&& x.saved == Some(draft)
                    &&& match newest_with(v.history, draft, i) {
                        Some(k) => k < i && next == DoneView::Draft(v.history[k as int])
                            && text::has(v.history[k as int], draft),
                        None => next == DoneView::Nothing,
                    }
                },
            }
        }),
{
    lemma_newest(v.history, draft, v.history.len());
    match newest_with(v.history, draft, v.history.len()) {
        Some(i) => {
            lemma_newest(v.history, draft, i);
        },
        None => {},
    }
}

proof fn lemma_newest(history: Seq<Seq<char>>, query: Seq<char>, n: nat)
    ensures
        newest_with(history, query, n) matches Some(i) ==> i < n && text::has(
            history[i as int],
            query,
        ),
    decreases n,
{
    if n > 0 && !text::has(history[n - 1], query) {
        lemma_newest(history, query, (n - 1) as nat);
    }
}

/// A completion replaces the whole word under the cursor and nothing else.
pub proof fn a_completion_replaces_the_word(draft: Seq<char>, cursor: nat, word: Seq<char>)
    requires
        cursor <= draft.len(),
    ensures
        ({
            let (start, was) = word_at(draft, cursor);
            let after = draft.skip((start + was.len()) as int);
            &&& draft == draft.take(start as int) + was + after
            &&& spliced(draft, start, cursor, word) == (DoneView::Place {
                draft: draft.take(start as int) + word + after,
                cursor: (start + word.len()) % 65536,
            })
        }),
{
    lemma_word(draft, cursor);
    let (start, was) = word_at(draft, cursor);
    assert(draft =~= draft.take(start as int) + was + draft.skip((start + was.len()) as int));
}

proof fn lemma_word(s: Seq<char>, i: nat)
    requires
        i <= s.len(),
    ensures
        word_start(s, i) <= i <= word_stop(s, i) <= s.len(),
    decreases s.len(),
{
    lemma_start(s, i);
    lemma_stop(s, i);
}

proof fn lemma_start(s: Seq<char>, i: nat)
    ensures
        word_start(s, i) <= i,
    decreases i,
{
    if i > 0 {
        lemma_start(s, (i - 1) as nat);
    }
}

proof fn lemma_stop(s: Seq<char>, i: nat)
    requires
        i <= s.len(),
    ensures
        i <= word_stop(s, i) <= s.len(),
    decreases s.len() - i,
{
    if i < s.len() {
        lemma_stop(s, i + 1);
    }
}

/// Going one way through the matches and then the other is back at the match it
/// began with.
pub proof fn a_turn_back_undoes_a_turn(at: nat, n: nat, backward: bool)
    requires
        at < n,
    ensures
        turned(turned(at, n, backward), n, !backward) == at,
        turned(at, n, backward) < n,
{
    if at + 1 < n {
        vstd::arithmetic::div_mod::lemma_small_mod(at + 1, n);
        vstd::arithmetic::div_mod::lemma_mod_add_multiples_vanish(at as int, n as int);
        vstd::arithmetic::div_mod::lemma_small_mod(at, n);
    } else {
        vstd::arithmetic::div_mod::lemma_mod_self_0(n as int);
        vstd::arithmetic::div_mod::lemma_small_mod((n - 1) as nat, n);
    }
    if at > 0 {
        let less = (at - 1) as nat;
        vstd::arithmetic::div_mod::lemma_mod_add_multiples_vanish(less as int, n as int);
        vstd::arithmetic::div_mod::lemma_small_mod(less, n);
        vstd::arithmetic::div_mod::lemma_small_mod(at, n);
        assert((at + n - 1) % n as int == less);
    } else {
        vstd::arithmetic::div_mod::lemma_small_mod((n - 1) as nat, n);
        vstd::arithmetic::div_mod::lemma_mod_self_0(n as int);
    }
}

proof fn lemma_beginning(v: Seq<Seq<char>>, prefix: Seq<char>)
    ensures
        forall|k: int|
            0 <= k < beginning(v, prefix).len() ==> text::starts(
                #[trigger] beginning(v, prefix)[k],
                prefix,
            ) && v.contains(beginning(v, prefix)[k]),
    decreases v.len(),
{
    if v.len() > 0 {
        let front = v.drop_last();
        lemma_beginning(front, prefix);
        assert forall|k: int| 0 <= k < beginning(v, prefix).len() implies text::starts(
            #[trigger] beginning(v, prefix)[k],
            prefix,
        ) && v.contains(beginning(v, prefix)[k]) by {
            let less = beginning(front, prefix);
            if k < less.len() {
                assert(beginning(v, prefix)[k] == less[k]);
                let j = choose|j: int| 0 <= j < front.len() && front[j] == less[k];
                assert(v[j] == less[k]);
            } else {
                assert(v[v.len() - 1] == beginning(v, prefix)[k]);
            }
        }
    }
}

/// A completion only adds to what was typed: every match begins with the word
/// under the cursor, and is a command or a name that there is.
pub proof fn completions_begin_with_the_word(
    draft: Seq<char>,
    start: nat,
    word: Seq<char>,
    names: Seq<Seq<char>>,
    k: int,
)
    requires
        0 <= k < matches_for(draft, start, word, names).len(),
    ensures
        ({
            let m = matches_for(draft, start, word, names)[k];
            &&& text::starts(m, word)
            &&& command_names().contains(m) || tag_names(names).contains(m) || names.contains(m)
        }),
{
    lemma_beginning(command_names(), word);
    lemma_beginning(tag_names(names), word);
    lemma_beginning(names, word);
}

// ---------------------------------------------------------------------
// What each key does
// ---------------------------------------------------------------------

/// A line is sent when it is entered, without the white space round it, and kept
/// as the newest of the history; a blank one is not.
pub proof fn an_entered_line_is_sent_and_kept(
    v: InputView,
    names: Seq<Seq<char>>,
    draft: Seq<char>,
    cursor: nat,
)
    ensures
        ({
            let (w, did) = handled(v, Key::Enter, names, draft, cursor);
            let line = text::trimmed(draft);
            &&& line.len() > 0 ==> did == DoneView::Submit(line) && w.history == v.history.push(
                line,
            ) && w.at is None && w.saved is None && w.sought is None && w.tab is None
            &&& line.len() == 0 ==> did is Nothing && w.history == v.history
        }),
{
}

/// No key but enter changes what was sent before.
pub proof fn only_enter_adds_to_the_history(
    v: InputView,
    key: Key,
    names: Seq<Seq<char>>,
    draft: Seq<char>,
    cursor: nat,
)
    requires
        !(key is Enter),
    ensures
        handled(v, key, names, draft, cursor).0.history == v.history,
        !(handled(v, key, names, draft, cursor).1 is Submit),
{
}

/// The keys of control: the end of the session on an empty draft, a clean draft,
/// the lines before and after, and the search; a key that is let go of does
/// nothing, and any other is for the editor.
pub proof fn each_key_does_its_own(
    v: InputView,
    names: Seq<Seq<char>>,
    draft: Seq<char>,
    cursor: nat,
    c: char,
)
    ensures
        handled(v, Key::Released, names, draft, cursor) == (v, DoneView::Nothing),
        handled(v, Key::Ctrl('d'), names, draft, cursor).1 is Quit <==> draft.len() == 0,
        draft.len() > 0 ==> handled(v, Key::Ctrl('d'), names, draft, cursor).1 is DeleteNext,
        handled(v, Key::Ctrl('c'), names, draft, cursor).1 == DoneView::Draft(""@),
        handled(v, Key::Ctrl('c'), names, draft, cursor).0.at is None,
        handled(v, Key::Ctrl('p'), names, draft, cursor) == handled(
            v,
            Key::Up,
            names,
            draft,
            cursor,
        ),
        handled(v, Key::Ctrl('n'), names, draft, cursor) == handled(
            v,
            Key::Down,
            names,
            draft,
            cursor,
        ),
        handled(v, Key::Other, names, draft, cursor).1 is Edit,
        c != 'd' && c != 'c' && c != 'p' && c != 'n' && c != 'r' ==> handled(
            v,
            Key::Ctrl(c),
            names,
            draft,
            cursor,
        ).1 is Edit,
        v.history.len() > 0 && v.at is None ==> handled(v, Key::Up, names, draft, cursor).1
            == DoneView::Draft(v.history.last()),
        v.at is None ==> handled(v, Key::Down, names, draft, cursor).1 is Nothing,
{
}

/// A search finds the newest line before the place it starts from that has what
/// is sought in it, and none only where none has.
pub proof fn the_newest_match_is_found(history: Seq<Seq<char>>, query: Seq<char>, n: nat)
    requires
        n <= history.len(),
    ensures
        match newest_with(history, query, n) {
            Some(i) => i < n && text::has(history[i as int], query) && forall|k: int|
                i < k < n ==> text::has(#[trigger] history[k], query) == false,
            None => forall|k: int|
                0 <= k < n ==> text::has(#[trigger] history[k], query) == false,
        },
    decreases n,
{
    if n > 0 && text::has(history[n - 1], query) == false {
        the_newest_match_is_found(history, query, (n - 1) as nat);
    }
}

/// The word at the cursor is all that stands round it without white space.
pub proof fn the_word_at_the_cursor_is_whole(s: Seq<char>, cursor: nat)
    requires
        cursor <= s.len(),
    ensures
        ({
            let (start, word) = word_at(s, cursor);
            let stop = start + word.len();
            &&& start <= cursor <= stop <= s.len()
            &&& word == s.subrange(start as int, stop as int)
            &&& forall|i: int| start <= i < stop ==> !text::white(#[trigger] s[i])
            &&& start > 0 ==> text::white(s[start - 1])
            &&& stop < s.len() ==> text::white(s[stop as int])
        }),
{
    lemma_word_start(s, cursor);
    lemma_word_stop_at(s, cursor);
}

proof fn lemma_word_start(s: Seq<char>, i: nat)
    requires
        i <= s.len(),
    ensures
        word_start(s, i) <= i,
        forall|k: int| word_start(s, i) <= k < i ==> !text::white(#[trigger] s[k]),
        word_start(s, i) > 0 ==> text::white(s[word_start(s, i) - 1]),
    decreases i,
{
    if i > 0 && !text::white(s[i - 1]) {
        lemma_word_start(s, (i - 1) as nat);
    }
}

proof fn lemma_word_stop_at(s: Seq<char>, i: nat)
    requires
        i <= s.len(),
    ensures
        i <= word_stop(s, i) <= s.len(),
        forall|k: int| i <= k < word_stop(s, i) ==> !text::white(#[trigger] s[k]),
        word_stop(s, i) < s.len() ==> text::white(s[word_stop(s, i) as int]),
    decreases s.len() - i,
{
    if i < s.len() && !text::white(s[i as int]) {
        lemma_word_stop_at(s, i + 1);
    }
}

/// Every command can be completed.
pub proof fn every_command_is_offered()
    ensures
        command_names().len() == 15,
        command_names().contains("/task"@),
        command_names().contains("/tasks"@),
        command_names().contains("/peers"@),
        command_names().contains("/activity"@),
        command_names().contains("/artifact"@),
        command_names().contains("/artifacts"@),
        command_names().contains("/note"@),
        command_names().contains("/notes"@),
        command_names().contains("/clear"@),
        command_names().contains("/keys"@),
        command_names().contains("/reply"@),
        command_names().contains("/react"@),
        command_names().contains("/vote"@),
        command_names().contains("/quit"@),
        command_names().contains("/exit"@),
{
    let v = command_names();
    assert(v[0] == "/task"@);
    assert(v[1] == "/tasks"@);
    assert(v[2] == "/peers"@);
    assert(v[3] == "/activity"@);
    assert(v[4] == "/artifact"@);
    assert(v[5] == "/artifacts"@);
    assert(v[6] == "/note"@);
    assert(v[7] == "/notes"@);
    assert(v[8] == "/clear"@);
    assert(v[9] == "/keys"@);
    assert(v[10] == "/reply"@);
    assert(v[11] == "/react"@);
    assert(v[12] == "/vote"@);
    assert(v[13] == "/quit"@);
    assert(v[14] == "/exit"@);
}

/// Everyone can be tagged by name, and all by each of their three names.
pub proof fn everyone_can_be_tagged(names: Seq<Seq<char>>, i: int)
    ensures
        0 <= i < names.len() ==> tag_names(names)[i] == "@"@ + names[i],
        tag_names(names).len() == names.len() + 3,
        tag_names(names).contains("@"@ + "all"@),
        tag_names(names).contains("@"@ + "litter"@),
        tag_names(names).contains("@"@ + "cats"@),
{
    let t = tag_names(names);
    let n = names.len() as int;
    assert(t[n] == "@"@ + "all"@);
    assert(t[n + 1] == "@"@ + "litter"@);
    assert(t[n + 2] == "@"@ + "cats"@);
}

/// A word is completed by what it is: one that starts a command by the commands,
/// one that starts a tag by the tags, and the word after a command that takes a
/// name by the names.
pub proof fn a_word_is_completed_by_its_kind(
    draft: Seq<char>,
    start: nat,
    word: Seq<char>,
    names: Seq<Seq<char>>,
)
    ensures
        text::starts(word, "/"@) ==> matches_for(draft, start, word, names) == beginning(
            command_names(),
            word,
        ),
        text::starts(word, "@"@) ==> matches_for(draft, start, word, names) == beginning(
            tag_names(names),
            word,
        ),
        !text::starts(word, "/"@) && !text::starts(word, "@"@) && (text::starts(draft, "/tasks "@)
            || text::starts(draft, "/activity "@) || text::starts(draft, "/dm "@)) && start
            == text::first(draft, ' ') + 1 ==> matches_for(draft, start, word, names) == beginning(
            names,
            word,
        ),
{
    reveal_strlit("/");
    reveal_strlit("@");
    if text::starts(word, "/"@) && text::starts(word, "@"@) {
        assert(word.subrange(0, 1)[0] == '/');
        assert(word.subrange(0, 1)[0] == '@');
    }
}

/// All that begin with a word are offered, in order, and no others.
pub proof fn every_beginning_is_offered(
    a: Seq<Seq<char>>,
    b: Seq<Seq<char>>,
    x: Seq<char>,
    prefix: Seq<char>,
)
    ensures
        beginning(a + b, prefix) == beginning(a, prefix) + beginning(b, prefix),
        beginning(seq![x], prefix) == (if text::starts(x, prefix) {
            seq![x]
        } else {
            Seq::<Seq<char>>::empty()
        }),
        beginning(Seq::<Seq<char>>::empty(), prefix).len() == 0,
    decreases b.len(),
{
    reveal_with_fuel(beginning, 2);
    assert(seq![x].drop_last() =~= Seq::<Seq<char>>::empty());
    assert(beginning(Seq::<Seq<char>>::empty(), prefix).len() == 0);
    if b.len() == 0 {
        assert(a + b =~= a);
        assert(beginning(a + b, prefix) =~= beginning(a, prefix) + beginning(b, prefix));
    } else {
        let all = a + b;
        assert(all.drop_last() =~= a + b.drop_last());
        assert(all.last() == b.last());
        every_beginning_is_offered(a, b.drop_last(), x, prefix);
        assert(beginning(all, prefix) =~= beginning(a, prefix) + beginning(b, prefix));
    }
}

} // verus!
