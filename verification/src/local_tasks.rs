//! A cat's own to-do list: the `LocalTask` tool.
//!
//! Not the litter's tasks: nothing here is on chain, nobody else can see or
//! assign one, and there is no lifecycle beyond what the cat says. It is
//! somewhere for a cat to write down the steps of a job it took on and where it
//! has got to, which, unlike its conversation, survives its process restarting.
//!
//! A list belongs to one epoch (the chain's last checkpoint): one saved under
//! another epoch is not taken up, and a checkpoint move while running empties
//! it.

use crate::activity;
use crate::activity::TaskLine;
use crate::outside;
use crate::text;
use vstd::prelude::*;
use vstd::string::*;

verus! {

/// Most open ones: a list that long is a model looping, not planning.
pub const MAX_OPEN: usize = 50;

/// Most finished ones kept, oldest dropped first.
pub const MAX_CLOSED: usize = 20;

#[derive(Clone, Debug, PartialEq)]
pub struct LocalTask {
    pub id: String,
    pub text: String,
    /// `todo`, `doing`, `done`, `failed`, `dropped`.
    pub status: String,
    /// What came of it, for `done` and `failed`.
    pub note: String,
}

/// A task as its four texts.
pub struct Row {
    pub id: Seq<char>,
    pub text: Seq<char>,
    pub status: Seq<char>,
    pub note: Seq<char>,
}

impl View for LocalTask {
    type V = Row;

    open spec fn view(&self) -> Row {
        Row { id: self.id@, text: self.text@, status: self.status@, note: self.note@ }
    }
}

/// The tasks of a list, in its order.
pub open spec fn rows(v: Seq<LocalTask>) -> Seq<Row> {
    Seq::new(v.len(), |i: int| v[i]@)
}

pub open spec fn row_open(t: Row) -> bool {
    t.status == "todo"@ || t.status == "doing"@
}

impl LocalTask {
    pub fn is_open(&self) -> (r: bool)
        ensures
            r == row_open(self@),
    {
        text::same(self.status.as_str(), "todo") || text::same(self.status.as_str(), "doing")
    }

    /// The same task again.
    fn copy(&self) -> (r: LocalTask)
        ensures
            r == *self,
    {
        LocalTask {
            id: self.id.clone(),
            text: self.text.clone(),
            status: self.status.clone(),
            note: self.note.clone(),
        }
    }
}

#[derive(Debug, PartialEq)]
pub struct LocalTasks {
    /// The chain's checkpoint the list was written under.
    pub epoch: u64,
    /// The number the next task gets.
    pub next: u64,
    pub tasks: Vec<LocalTask>,
}

/// The rows that are open, or those that are not, in order.
pub open spec fn chosen(v: Seq<Row>, open: bool) -> Seq<Row>
    decreases v.len(),
{
    if v.len() == 0 {
        seq![]
    } else if row_open(v.last()) == open {
        chosen(v.drop_last(), open).push(v.last())
    } else {
        chosen(v.drop_last(), open)
    }
}

/// `v` without the first `n` of its rows that are not open.
pub open spec fn without_closed(v: Seq<Row>, n: nat) -> Seq<Row>
    decreases v.len(),
{
    if v.len() == 0 {
        seq![]
    } else if n > 0 && !row_open(v[0]) {
        without_closed(v.skip(1), (n - 1) as nat)
    } else {
        seq![v[0]] + without_closed(v.skip(1), n)
    }
}

/// `v` with only the newest [`MAX_CLOSED`] of its finished rows.
pub open spec fn kept(v: Seq<Row>) -> Seq<Row> {
    without_closed(v, activity::less(chosen(v, false).len() as int, MAX_CLOSED as int) as nat)
}

/// The first row with this id.
pub open spec fn index_of(v: Seq<Row>, id: Seq<char>) -> Option<nat>
    decreases v.len(),
{
    if v.len() == 0 {
        None
    } else if v[0].id == id {
        Some(0)
    } else {
        match index_of(v.skip(1), id) {
            None => None,
            Some(i) => Some(i + 1),
        }
    }
}

/// The status that an action leaves a task in, for the four that name one.
pub open spec fn status_after(action: Seq<char>) -> Option<Seq<char>> {
    if action == "start"@ {
        Some("doing"@)
    } else if action == "done"@ {
        Some("done"@)
    } else if action == "failed"@ {
        Some("failed"@)
    } else if action == "drop"@ {
        Some("dropped"@)
    } else {
        None
    }
}

/// One row of the list as the model reads it.
pub open spec fn row_text(t: Row) -> Seq<char> {
    let head = t.id + " ["@ + t.status + "] "@ + t.text;
    if t.note.len() == 0 {
        head
    } else {
        head + (" — "@ + t.note)
    }
}

pub open spec fn row_texts(v: Seq<Row>) -> Seq<Seq<char>> {
    Seq::new(v.len(), |i: int| row_text(v[i]))
}

/// The blocks of the rendered list, one per line group.
pub open spec fn rendered_parts(v: Seq<Row>, lead: Seq<char>) -> Seq<Seq<char>> {
    let start = if lead.len() == 0 {
        seq![]
    } else {
        seq![lead]
    };
    if v.len() == 0 {
        start.push("Your local task list is empty."@)
    } else {
        let open = row_texts(chosen(v, true));
        let closed = row_texts(chosen(v, false));
        let with_open = start.push(
            if open.len() == 0 {
                "Open: none."@
            } else {
                "Open:\n"@ + text::joined(open, "\n"@)
            },
        );
        if closed.len() == 0 {
            with_open
        } else {
            with_open.push("Finished:\n"@ + text::joined(closed, "\n"@))
        }
    }
}

/// The list as the model reads it: open ones first, then what is done.
pub open spec fn rendered(v: Seq<Row>, lead: Seq<char>) -> Seq<char> {
    text::joined(rendered_parts(v, lead), "\n"@)
}

/// What a list is: its epoch, the number of the next task, its rows.
pub struct ListView {
    pub epoch: u64,
    pub next: nat,
    pub rows: Seq<Row>,
}

/// The list of a session that has just begun.
pub open spec fn fresh(epoch: u64) -> ListView {
    ListView { epoch, next: 1, rows: seq![] }
}

/// What one `LocalTask` call does: the list after it, whether it was taken,
/// and the line saying what happened.
pub open spec fn step(
    l: ListView,
    action: Seq<char>,
    raw_id: Seq<char>,
    raw_text: Seq<char>,
) -> (ListView, bool, Seq<char>) {
    let id = text::raised(text::trimmed(raw_id));
    let words = text::trimmed(raw_text);
    if action == "list"@ {
        (ListView { rows: kept(l.rows), ..l }, true, ""@)
    } else if action == "add"@ {
        if words.len() == 0 {
            (l, false, "add needs text: what to do."@)
        } else if chosen(l.rows, true).len() >= MAX_OPEN {
            (l, false, text::dec(MAX_OPEN as nat) + " open already — finish or drop some first."@)
        } else {
            let name = "L"@ + text::dec(l.next);
            let row = Row { id: name, text: words, status: "todo"@, note: seq![] };
            (
                ListView { epoch: l.epoch, next: l.next + 1, rows: kept(l.rows.push(row)) },
                true,
                "added "@ + name + "."@,
            )
        }
    } else {
        match status_after(action) {
            None => (
                l,
                false,
                "unknown action "@ + outside::quoted(action)
                    + " — add, start, done, failed, drop or list."@,
            ),
            Some(status) => match index_of(l.rows, id) {
                None => (
                    l,
                    false,
                    "no local task "@ + outside::quoted(id) + " — use an id from this list."@,
                ),
                Some(i) => if action == "start"@ && !row_open(l.rows[i as int]) && chosen(
                    l.rows,
                    true,
                ).len() >= MAX_OPEN {
                    (
                        l,
                        false,
                        text::dec(MAX_OPEN as nat) + " open already — finish or drop some first."@,
                    )
                } else {
                    let was = l.rows[i as int];
                    let note = if (action == "done"@ || action == "failed"@) && words.len() > 0 {
                        words
                    } else {
                        was.note
                    };
                    let row = Row { status, note, ..was };
                    (
                        ListView { rows: kept(l.rows.update(i as int, row)), ..l },
                        true,
                        id + " is "@ + status + "."@,
                    )
                },
            },
        }
    }
}

/// A task's place in the list's order: the number in its id.
pub open spec fn order_key(id: Seq<char>) -> nat {
    match text::parsed(text::without_leading(id, 'L'), u64::MAX as nat) {
        Some(n) => n,
        None => u64::MAX as nat,
    }
}

/// `v` with `t` put in behind the last row whose key is not greater.
pub open spec fn put_in(v: Seq<Row>, t: Row) -> Seq<Row>
    decreases v.len(),
{
    if v.len() > 0 && order_key(v.last().id) > order_key(t.id) {
        put_in(v.drop_last(), t).push(v.last())
    } else {
        v.push(t)
    }
}

/// `v` by key, rows with one key in the order they had.
pub open spec fn in_order(v: Seq<Row>) -> Seq<Row>
    decreases v.len(),
{
    if v.len() == 0 {
        seq![]
    } else {
        put_in(in_order(v.drop_last()), v.last())
    }
}

/// The rows a record of at most `max` carries: the open ones, then the newest
/// finished ones there is room for.
pub open spec fn carried(v: Seq<Row>, max: nat) -> Seq<Row> {
    let open = chosen(v, true);
    let closed = chosen(v, false);
    let room = activity::less(max as int, open.len() as int);
    (if open.len() > max {
        open.take(max as int)
    } else {
        open
    }) + closed.skip(activity::less(closed.len() as int, room))
}

/// A row as a record carries it.
pub open spec fn line_of(t: Row) -> Row {
    Row {
        id: t.id,
        status: t.status,
        text: activity::clipped(activity::headline(t.text), activity::TASK_CHARS as nat),
        note: activity::clipped(activity::headline(t.note), activity::TASK_CHARS as nat),
    }
}

pub open spec fn line_view(t: TaskLine) -> Row {
    Row { id: t.id@, text: t.text@, status: t.status@, note: t.note@ }
}

pub open spec fn line_views(v: Seq<TaskLine>) -> Seq<Row> {
    Seq::new(v.len(), |i: int| line_view(v[i]))
}

pub open spec fn lines_for(v: Seq<Row>) -> Seq<Row> {
    Seq::new(v.len(), |i: int| line_of(v[i]))
}

/// A task of the reminder.
pub open spec fn brief(t: Row) -> Seq<char> {
    t.id + " ["@ + t.status + "] "@ + t.text
}

pub open spec fn briefs(v: Seq<Row>) -> Seq<Seq<char>> {
    Seq::new(v.len(), |i: int| brief(v[i]))
}

pub open spec fn reminded(v: Seq<Row>) -> Option<Seq<char>> {
    let open = briefs(chosen(v, true));
    if open.len() == 0 {
        None
    } else {
        Some(
            "(Your open local tasks — LocalTask to update them:\n"@ + text::joined(open, "\n"@)
                + ")"@,
        )
    }
}

fn row_of(t: &LocalTask) -> (r: String)
    ensures
        r@ == row_text(t@),
{
    let head = t.id.clone().concat(" [").concat(t.status.as_str()).concat("] ").concat(
        t.text.as_str(),
    );
    if t.note.as_str().is_empty() {
        head
    } else {
        let tail = String::from_str(" — ").concat(t.note.as_str());
        head.concat(tail.as_str())
    }
}

/// What is said of a task too many.
fn full() -> (r: String)
    ensures
        r@ == text::dec(MAX_OPEN as nat) + " open already — finish or drop some first."@,
{
    text::number(MAX_OPEN as u64).concat(" open already — finish or drop some first.")
}

impl View for LocalTasks {
    type V = ListView;

    open spec fn view(&self) -> ListView {
        ListView { epoch: self.epoch, next: self.next as nat, rows: rows(self.tasks@) }
    }
}

impl LocalTasks {
    /// The list that was saved, if it was saved under `epoch`; an empty one
    /// otherwise.
    pub fn load(saved: Option<LocalTasks>, epoch: u64) -> (r: LocalTasks)
        ensures
            r@ == (match saved {
                Some(l) => if l@.epoch == epoch {
                    l@
                } else {
                    fresh(epoch)
                },
                None => fresh(epoch),
            }),
    {
        match saved {
            Some(l) => {
                if l.epoch == epoch {
                    return l;
                }
            },
            None => {},
        }
        let tasks: Vec<LocalTask> = Vec::new();
        assert(rows(tasks@) =~= Seq::<Row>::empty());
        LocalTasks { epoch, next: 1, tasks }
    }

    /// The chain moved to `epoch`: a new session, an empty list. `true` if the
    /// list changed.
    pub fn reset(&mut self, epoch: u64) -> (changed: bool)
        ensures
            changed == (epoch != old(self)@.epoch),
            final(self)@ == if changed {
                fresh(epoch)
            } else {
                old(self)@
            },
    {
        if epoch != self.epoch {
            self.epoch = epoch;
            self.next = 1;
            self.tasks = Vec::new();
            assert(rows(self.tasks@) =~= Seq::<Row>::empty());
            true
        } else {
            false
        }
    }

    /// How many tasks are open, or how many are not.
    fn tally(&self, open: bool) -> (n: usize)
        ensures
            n == chosen(self@.rows, open).len(),
    {
        let ghost all = self@.rows;
        let mut n: usize = 0;
        let mut i: usize = 0;
        assert(all.take(0) =~= Seq::<Row>::empty());
        while i < self.tasks.len()
            invariant
                i <= self.tasks.len(),
                n <= i,
                all == rows(self.tasks@),
                n == chosen(all.take(i as int), open).len(),
            decreases self.tasks.len() - i,
        {
            assert(all.take(i + 1).drop_last() =~= all.take(i as int));
            assert(all.take(i + 1).last() == self.tasks@[i as int]@);
            if self.tasks[i].is_open() == open {
                n = n + 1;
            }
            i = i + 1;
        }
        assert(all.take(i as int) =~= all);
        n
    }

    /// The open tasks, or the others, in order.
    fn pick(&self, open: bool) -> (out: Vec<LocalTask>)
        ensures
            rows(out@) == chosen(self@.rows, open),
    {
        let ghost all = self@.rows;
        let mut out: Vec<LocalTask> = Vec::new();
        let mut i: usize = 0;
        assert(all.take(0) =~= Seq::<Row>::empty());
        assert(rows(out@) =~= Seq::<Row>::empty());
        while i < self.tasks.len()
            invariant
                i <= self.tasks.len(),
                all == rows(self.tasks@),
                rows(out@) == chosen(all.take(i as int), open),
            decreases self.tasks.len() - i,
        {
            assert(all.take(i + 1).drop_last() =~= all.take(i as int));
            assert(all.take(i + 1).last() == self.tasks@[i as int]@);
            if self.tasks[i].is_open() == open {
                let t = self.tasks[i].copy();
                assert(rows(out@.push(t)) =~= rows(out@).push(t@));
                out.push(t);
            }
            i = i + 1;
        }
        assert(all.take(i as int) =~= all);
        out
    }

    /// The tasks still open, in order.
    pub fn open(&self) -> (out: Vec<LocalTask>)
        ensures
            rows(out@) == chosen(self@.rows, true),
    {
        self.pick(true)
    }

    /// One `LocalTask` call. `Ok` and `Err` both carry the text the model gets
    /// back: the whole list, after a line saying what happened.
    pub fn apply(&mut self, action: &str, id: &str, text: &str) -> (r: Result<String, String>)
        requires
            action@ == "add"@ ==> old(self)@.next < u64::MAX,
        ensures
            ({
                let (after, taken, said) = step(old(self)@, action@, id@, text@);
                &&& final(self)@ == after
                &&& r is Ok == taken
                &&& (match r {
                    Ok(s) => s@,
                    Err(s) => s@,
                }) == rendered(after.rows, said)
            }),
    {
        let ghost was = self@;
        let id = text::to_upper(text::trim(id).as_str());
        let words = text::trim(text);
        if text::same(action, "list") {
            self.trim_closed();
            return Ok(self.render(""));
        }
        if text::same(action, "add") {
            if words.as_str().is_empty() {
                return Err(self.render("add needs text: what to do."));
            }
            if self.tally(true) >= MAX_OPEN {
                return Err(self.render(full().as_str()));
            }
            let name = String::from_str("L").concat(text::number(self.next).as_str());
            self.next = self.next + 1;
            let said = String::from_str("added ").concat(name.as_str()).concat(".");
            let t = LocalTask {
                id: name,
                text: words,
                status: "todo".to_owned(),
                note: String::new(),
            };
            assert(rows(self.tasks@.push(t)) =~= rows(self.tasks@).push(t@));
            self.tasks.push(t);
            self.trim_closed();
            return Ok(self.render(said.as_str()));
        }
        let status = if text::same(action, "start") {
            "doing"
        } else if text::same(action, "done") {
            "done"
        } else if text::same(action, "failed") {
            "failed"
        } else if text::same(action, "drop") {
            "dropped"
        } else {
            let lead = String::from_str("unknown action ").concat(
                outside::quote(action).as_str(),
            ).concat(" — add, start, done, failed, drop or list.");
            return Err(self.render(lead.as_str()));
        };
        match self.find(id.as_str()) {
            None => {
                let lead = String::from_str("no local task ").concat(
                    outside::quote(id.as_str()).as_str(),
                ).concat(" — use an id from this list.");
                Err(self.render(lead.as_str()))
            },
            Some(i) => {
                if text::same(action, "start") && !self.tasks[i].is_open() && self.tally(true)
                    >= MAX_OPEN {
                    return Err(self.render(full().as_str()));
                }
                let said = id.concat(" is ").concat(status).concat(".");
                let mut t = self.tasks[i].copy();
                t.status = status.to_owned();
                if (text::same(action, "done") || text::same(action, "failed"))
                    && !words.as_str().is_empty() {
                    t.note = words;
                }
                let ghost row = t@;
                self.tasks.set(i, t);
                assert(rows(self.tasks@) =~= was.rows.update(i as int, row));
                self.trim_closed();
                Ok(self.render(said.as_str()))
            },
        }
    }

    /// The first task with this id.
    fn find(&self, id: &str) -> (r: Option<usize>)
        ensures
            match r {
                Some(i) => index_of(self@.rows, id@) == Some(i as nat) && i < self.tasks.len(),
                None => index_of(self@.rows, id@) is None,
            },
    {
        let ghost all = self@.rows;
        let mut i: usize = 0;
        assert(all.skip(0) =~= all);
        while i < self.tasks.len()
            invariant
                i <= self.tasks.len(),
                all == rows(self.tasks@),
                index_of(all, id@) == (match index_of(all.skip(i as int), id@) {
                    None => None::<nat>,
                    Some(k) => Some((i + k) as nat),
                }),
            decreases self.tasks.len() - i,
        {
            assert(all.skip(i as int)[0] == self.tasks@[i as int]@);
            if text::same(self.tasks[i].id.as_str(), id) {
                return Some(i);
            }
            assert(all.skip(i as int).skip(1) =~= all.skip(i + 1));
            i = i + 1;
        }
        None
    }

    /// Drop the oldest finished tasks past [`MAX_CLOSED`].
    fn trim_closed(&mut self)
        ensures
            final(self)@ == (ListView { rows: kept(old(self)@.rows), ..old(self)@ }),
    {
        let closed: usize = self.tally(false);
        let excess: usize = closed.saturating_sub(MAX_CLOSED);
        let ghost all = self@.rows;
        let mut left: usize = excess;
        let mut out: Vec<LocalTask> = Vec::new();
        let mut i: usize = 0;
        assert(all.skip(0) =~= all);
        assert(rows(out@) =~= Seq::<Row>::empty());
        assert(rows(out@) + without_closed(all, excess as nat) =~= without_closed(
            all,
            excess as nat,
        ));
        while i < self.tasks.len()
            invariant
                i <= self.tasks.len(),
                all == rows(self.tasks@),
                left <= excess,
                self@ == old(self)@,
                rows(out@) + without_closed(all.skip(i as int), left as nat) == without_closed(
                    all,
                    excess as nat,
                ),
            decreases self.tasks.len() - i,
        {
            assert(all.skip(i as int)[0] == self.tasks@[i as int]@);
            assert(all.skip(i as int).skip(1) =~= all.skip(i + 1));
            if left > 0 && !self.tasks[i].is_open() {
                left = left - 1;
            } else {
                let t = self.tasks[i].copy();
                assert(rows(out@.push(t)) =~= rows(out@).push(t@));
                assert(rows(out@) + (seq![t@] + without_closed(all.skip(i + 1), left as nat))
                    =~= rows(out@).push(t@) + without_closed(all.skip(i + 1), left as nat));
                out.push(t);
            }
            i = i + 1;
        }
        assert(all.skip(i as int) =~= Seq::<Row>::empty());
        assert(rows(out@) =~= rows(out@) + without_closed(all.skip(i as int), left as nat));
        self.tasks = out;
    }

    fn texts_of(v: &Vec<LocalTask>) -> (out: Vec<String>)
        ensures
            text::texts(out@) == row_texts(rows(v@)),
    {
        let mut out: Vec<String> = Vec::new();
        let mut i: usize = 0;
        while i < v.len()
            invariant
                i <= v.len(),
                out.len() == i,
                forall|k: int| 0 <= k < i ==> (#[trigger] out@[k])@ == row_text(v@[k]@),
            decreases v.len() - i,
        {
            out.push(row_of(&v[i]));
            i = i + 1;
        }
        assert(text::texts(out@) =~= row_texts(rows(v@)));
        out
    }

    /// The list as the model reads it: open ones first, then what is done.
    pub fn render(&self, lead: &str) -> (r: String)
        ensures
            r@ == rendered(self@.rows, lead@),
    {
        let mut out: Vec<String> = Vec::new();
        assert(text::texts(out@) =~= Seq::<Seq<char>>::empty());
        if !lead.is_empty() {
            let s = lead.to_owned();
            proof {
                text::lemma_texts_push(out@, s);
            }
            out.push(s);
            assert(text::texts(out@) =~= seq![lead@]);
        }
        let ghost start = text::texts(out@);
        if self.tasks.len() == 0 {
            let s = "Your local task list is empty.".to_owned();
            proof {
                text::lemma_texts_push(out@, s);
            }
            out.push(s);
            return text::join(&out, "\n");
        }
        let open = Self::texts_of(&self.pick(true));
        let closed = Self::texts_of(&self.pick(false));
        let first = if open.len() == 0 {
            "Open: none.".to_owned()
        } else {
            String::from_str("Open:\n").concat(text::join(&open, "\n").as_str())
        };
        proof {
            text::lemma_texts_push(out@, first);
        }
        out.push(first);
        if closed.len() > 0 {
            let second = String::from_str("Finished:\n").concat(
                text::join(&closed, "\n").as_str(),
            );
            proof {
                text::lemma_texts_push(out@, second);
            }
            out.push(second);
        }
        text::join(&out, "\n")
    }

    /// For a wake's prompt: the open ones, one line each; `None` if there are
    /// none, so an idle cat's prompts don't grow.
    pub fn reminder(&self) -> (r: Option<String>)
        ensures
            text::text_view(r) == reminded(self@.rows),
    {
        let open = self.pick(true);
        let mut out: Vec<String> = Vec::new();
        let mut i: usize = 0;
        while i < open.len()
            invariant
                i <= open.len(),
                out.len() == i,
                forall|k: int| 0 <= k < i ==> (#[trigger] out@[k])@ == brief(open@[k]@),
            decreases open.len() - i,
        {
            out.push(
                open[i].id.clone().concat(" [").concat(open[i].status.as_str()).concat("] ").concat(
                    open[i].text.as_str(),
                ),
            );
            i = i + 1;
        }
        assert(text::texts(out@) =~= briefs(chosen(self@.rows, true)));
        if out.len() == 0 {
            return None;
        }
        Some(
            String::from_str("(Your open local tasks — LocalTask to update them:\n").concat(
                text::join(&out, "\n").as_str(),
            ).concat(")"),
        )
    }

    /// The list for the live record: every open one and the newest finished,
    /// `max` in all, back in id order, with how many are finished and how many
    /// there are, over the whole list.
    pub fn progress(&self, max: usize) -> (r: (Vec<TaskLine>, u32, u32))
        ensures
            line_views(r.0@) == lines_for(in_order(carried(self@.rows, max as nat))),
            r.1 == chosen(self@.rows, false).len() as u32,
            r.2 == self@.rows.len() as u32,
    {
        let open = self.pick(true);
        let closed = self.pick(false);
        let room: usize = max.saturating_sub(open.len());
        let ghost want = carried(self@.rows, max as nat);
        let mut sorted: Vec<LocalTask> = Vec::new();
        let mut i: usize = 0;
        let n: usize = if open.len() > max {
            max
        } else {
            open.len()
        };
        assert(rows(sorted@) =~= in_order(want.take(0)));
        while i < n
            invariant
                i <= n <= open.len(),
                n <= want.len(),
                forall|k: int| 0 <= k < n ==> #[trigger] want[k] == open@[k]@,
                rows(sorted@) == in_order(want.take(i as int)),
            decreases n - i,
        {
            assert(want.take(i + 1).drop_last() =~= want.take(i as int));
            assert(want.take(i + 1).last() == want[i as int]);
            insert_in_order(&mut sorted, open[i].copy());
            i = i + 1;
        }
        let from: usize = closed.len().saturating_sub(room);
        let mut j: usize = from;
        assert(want.len() == n + (closed.len() - from));
        while j < closed.len()
            invariant
                from <= j <= closed.len(),
                want.len() == n + (closed.len() - from),
                forall|k: int| from <= k < closed.len() ==> #[trigger] closed@[k]@ == want[n + k
                    - from],
                rows(sorted@) == in_order(want.take(n + j - from)),
            decreases closed.len() - j,
        {
            assert(want.take(n + j - from + 1).drop_last() =~= want.take(n + j - from));
            assert(want.take(n + j - from + 1).last() == closed@[j as int]@);
            insert_in_order(&mut sorted, closed[j].copy());
            j = j + 1;
        }
        assert(want.take(n + j - from) =~= want);
        let mut lines: Vec<TaskLine> = Vec::new();
        let mut k: usize = 0;
        while k < sorted.len()
            invariant
                k <= sorted.len(),
                lines.len() == k,
                forall|m: int| 0 <= m < k ==> line_view(#[trigger] lines@[m]) == line_of(
                    sorted@[m]@,
                ),
            decreases sorted.len() - k,
        {
            let t = &sorted[k];
            lines.push(
                TaskLine {
                    id: t.id.clone(),
                    status: t.status.clone(),
                    text: activity::short(t.text.as_str(), activity::TASK_CHARS),
                    note: activity::short(t.note.as_str(), activity::TASK_CHARS),
                },
            );
            k = k + 1;
        }
        assert(line_views(lines@) =~= lines_for(rows(sorted@)));
        (lines, closed.len() as u32, self.tasks.len() as u32)
    }
}

fn key_of(id: &str) -> (k: u64)
    ensures
        k == order_key(id@),
{
    match text::parse_number(text::trim_leading(id, 'L').as_str(), u64::MAX) {
        Some(n) => n,
        None => u64::MAX,
    }
}

proof fn lemma_put_in(v: Seq<Row>, t: Row, i: int)
    requires
        0 <= i <= v.len(),
        i == 0 || order_key(v[i - 1].id) <= order_key(t.id),
        forall|k: int| i <= k < v.len() ==> order_key((#[trigger] v[k]).id) > order_key(t.id),
    ensures
        put_in(v, t) == v.insert(i, t),
    decreases v.len(),
{
    if i < v.len() {
        lemma_put_in(v.drop_last(), t, i);
        assert(v.drop_last().insert(i, t).push(v.last()) =~= v.insert(i, t));
    } else {
        assert(v.insert(i, t) =~= v.push(t));
    }
}

fn insert_in_order(v: &mut Vec<LocalTask>, t: LocalTask)
    ensures
        rows(final(v)@) == put_in(rows(old(v)@), t@),
{
    let ghost all = rows(v@);
    let key: u64 = key_of(t.id.as_str());
    let mut i: usize = v.len();
    while i > 0 && key_of(v[i - 1].id.as_str()) > key
        invariant
            i <= v.len(),
            all == rows(v@),
            v@ == old(v)@,
            key == order_key(t@.id),
            forall|k: int| i <= k < all.len() ==> order_key((#[trigger] all[k]).id) > key,
        decreases i,
    {
        assert(all[i - 1] == v@[i - 1]@);
        i = i - 1;
    }
    proof {
        lemma_put_in(all, t@, i as int);
    }
    v.insert(i, t);
    assert(rows(v@) =~= all.insert(i as int, t@));
}

// ---------------------------------------------------------------------
// What holds of every list
// ---------------------------------------------------------------------

/// A call that is refused leaves the list as it was.
pub proof fn refused_call_changes_nothing(
    l: ListView,
    action: Seq<char>,
    id: Seq<char>,
    words: Seq<char>,
)
    ensures
        !step(l, action, id, words).1 ==> step(l, action, id, words).0 == l,
{
}

proof fn lemma_chosen_add(a: Seq<Row>, b: Seq<Row>, open: bool)
    ensures
        chosen(a + b, open) == chosen(a, open) + chosen(b, open),
    decreases b.len(),
{
    if b.len() == 0 {
        assert(a + b =~= a);
        assert(chosen(a, open) + chosen(b, open) =~= chosen(a, open));
    } else {
        assert((a + b).drop_last() =~= a + b.drop_last());
        lemma_chosen_add(a, b.drop_last(), open);
        assert(chosen(a, open) + chosen(b.drop_last(), open).push(b.last()) =~= (chosen(a, open)
            + chosen(b.drop_last(), open)).push(b.last()));
    }
}

proof fn lemma_chosen_one(t: Row, open: bool)
    ensures
        chosen(seq![t], open) == if row_open(t) == open {
            seq![t]
        } else {
            seq![]
        },
{
    assert(seq![t].drop_last() =~= Seq::<Row>::empty());
    assert(chosen(seq![t].drop_last(), open) =~= Seq::<Row>::empty());
    assert(chosen(seq![t], open) =~= if row_open(t) == open {
        seq![t]
    } else {
        seq![]
    });
}

proof fn lemma_without_closed(v: Seq<Row>, n: nat)
    requires
        n <= chosen(v, false).len(),
    ensures
        chosen(without_closed(v, n), true) == chosen(v, true),
        chosen(without_closed(v, n), false) == chosen(v, false).skip(n as int),
    decreases v.len(),
{
    if v.len() > 0 {
        let rest = v.skip(1);
        assert(v =~= seq![v[0]] + rest);
        lemma_chosen_add(seq![v[0]], rest, true);
        lemma_chosen_add(seq![v[0]], rest, false);
        lemma_chosen_one(v[0], true);
        lemma_chosen_one(v[0], false);
        if n > 0 && !row_open(v[0]) {
            lemma_without_closed(rest, (n - 1) as nat);
            assert(chosen(v, true) =~= chosen(rest, true));
            assert(chosen(v, false).skip(n as int) =~= chosen(rest, false).skip(n - 1));
        } else {
            if row_open(v[0]) {
                assert(chosen(v, false) =~= chosen(rest, false));
            }
            lemma_without_closed(rest, n);
            lemma_chosen_add(seq![v[0]], without_closed(rest, n), true);
            lemma_chosen_add(seq![v[0]], without_closed(rest, n), false);
            assert(chosen(without_closed(v, n), true) =~= chosen(v, true));
            assert(chosen(without_closed(v, n), false) =~= chosen(v, false).skip(n as int));
        }
    } else {
        assert(chosen(v, false).skip(n as int) =~= chosen(v, false));
    }
}

/// Trimming never touches an open task, keeps at most [`MAX_CLOSED`] finished
/// ones, and those are the newest.
pub proof fn only_old_finished_ones_are_trimmed(v: Seq<Row>)
    ensures
        chosen(kept(v), true) == chosen(v, true),
        chosen(kept(v), false).len() <= MAX_CLOSED,
        chosen(kept(v), false) == chosen(v, false).skip(
            activity::less(chosen(v, false).len() as int, MAX_CLOSED as int),
        ),
{
    let n = activity::less(chosen(v, false).len() as int, MAX_CLOSED as int) as nat;
    lemma_without_closed(v, n);
}

proof fn lemma_chosen_update(v: Seq<Row>, i: int, row: Row)
    requires
        0 <= i < v.len(),
    ensures
        chosen(v.update(i, row), true).len() == chosen(v, true).len() + (if row_open(row) {
            1int
        } else {
            0
        }) - (if row_open(v[i]) {
            1int
        } else {
            0
        }),
    decreases v.len(),
{
    let u = v.update(i, row);
    if i < v.len() - 1 {
        assert(u.drop_last() =~= v.drop_last().update(i, row));
        lemma_chosen_update(v.drop_last(), i, row);
    } else {
        assert(u.drop_last() =~= v.drop_last());
    }
}

/// A list never grows past its bounds, whatever is called: a new one has no
/// tasks, no call takes the open ones past [`MAX_OPEN`], and after any call that
/// was taken there are at most [`MAX_CLOSED`] finished ones.
pub proof fn a_list_stays_bounded(
    l: ListView,
    action: Seq<char>,
    id: Seq<char>,
    words: Seq<char>,
)
    requires
        chosen(l.rows, true).len() <= MAX_OPEN,
    ensures
        chosen(fresh(l.epoch).rows, true).len() <= MAX_OPEN,
        chosen(step(l, action, id, words).0.rows, true).len() <= MAX_OPEN,
        step(l, action, id, words).1 ==> chosen(step(l, action, id, words).0.rows, false).len()
            <= MAX_CLOSED,
{
    let (after, taken, _said) = step(l, action, id, words);
    if taken {
        if action == "list"@ {
            only_old_finished_ones_are_trimmed(l.rows);
        } else if action == "add"@ {
            let name = "L"@ + text::dec(l.next);
            let row = Row { id: name, text: text::trimmed(words), status: "todo"@, note: seq![] };
            only_old_finished_ones_are_trimmed(l.rows.push(row));
            assert(l.rows.push(row).drop_last() =~= l.rows);
        } else {
            lemma_index_of(l.rows, text::raised(text::trimmed(id)));
            let i = index_of(l.rows, text::raised(text::trimmed(id)))->0 as int;
            let status = status_after(action)->0;
            assert(exists|row: Row|
                row.status == status && after.rows == kept(#[trigger] l.rows.update(i, row)));
            let row = choose|row: Row|
                row.status == status && after.rows == kept(#[trigger] l.rows.update(i, row));
            lemma_chosen_update(l.rows, i, row);
            only_old_finished_ones_are_trimmed(l.rows.update(i, row));
            if action != "start"@ {
                reveal_strlit("todo");
                reveal_strlit("doing");
                reveal_strlit("done");
                reveal_strlit("failed");
                reveal_strlit("dropped");
                assert("done"@[1] == 'o' && "done"@[0] != "todo"@[0]);
            }
        }
    }
}

/// Every task's id is `L` and a number below the next one, and no two share
/// one.
pub open spec fn well_numbered(l: ListView) -> bool {
    &&& forall|i: int|
        0 <= i < l.rows.len() ==> exists|k: nat|
            k < l.next && (#[trigger] l.rows[i]).id == "L"@ + #[trigger] text::dec(k)
    &&& forall|i: int, j: int|
        0 <= i < j < l.rows.len() ==> (#[trigger] l.rows[i]).id != (#[trigger] l.rows[j]).id
}

proof fn lemma_names_differ(a: nat, b: nat)
    requires
        "L"@ + text::dec(a) == "L"@ + text::dec(b),
    ensures
        a == b,
{
    reveal_strlit("L");
    assert(("L"@ + text::dec(a)).skip(1) =~= text::dec(a));
    assert(("L"@ + text::dec(b)).skip(1) =~= text::dec(b));
    text::printed_numbers_read_back(a);
    text::printed_numbers_read_back(b);
}

proof fn lemma_without_closed_from(v: Seq<Row>, n: nat) -> (at: spec_fn(int) -> int)
    ensures
        without_closed(v, n).len() <= v.len(),
        forall|i: int|
            0 <= i < without_closed(v, n).len() ==> 0 <= #[trigger] at(i) < v.len()
                && without_closed(v, n)[i] == v[at(i)],
        forall|i: int, j: int|
            0 <= i < j < without_closed(v, n).len() ==> #[trigger] at(i) < #[trigger] at(j),
    decreases v.len(),
{
    if v.len() == 0 {
        |i: int| i
    } else if n > 0 && !row_open(v[0]) {
        let inner = lemma_without_closed_from(v.skip(1), (n - 1) as nat);
        let at = |i: int| inner(i) + 1;
        assert forall|i: int| 0 <= i < without_closed(v, n).len() implies 0 <= #[trigger] at(i)
            < v.len() && without_closed(v, n)[i] == v[at(i)] by {
            assert(0 <= inner(i) < v.skip(1).len());
        }
        assert forall|i: int, j: int| 0 <= i < j < without_closed(v, n).len() implies #[trigger] at(
            i,
        ) < #[trigger] at(j) by {
            assert(inner(i) < inner(j));
        }
        at
    } else {
        let inner = lemma_without_closed_from(v.skip(1), n);
        let at = |i: int|
            if i == 0 {
                0
            } else {
                inner(i - 1) + 1
            };
        assert forall|i: int| 0 <= i < without_closed(v, n).len() implies 0 <= #[trigger] at(i)
            < v.len() && without_closed(v, n)[i] == v[at(i)] by {
            if i > 0 {
                assert(0 <= inner(i - 1) < v.skip(1).len());
            }
        }
        assert forall|i: int, j: int| 0 <= i < j < without_closed(v, n).len() implies #[trigger] at(
            i,
        ) < #[trigger] at(j) by {
            if i > 0 {
                assert(inner(i - 1) < inner(j - 1));
            } else {
                assert(0 <= inner(j - 1));
            }
        }
        at
    }
}

proof fn lemma_kept_numbered(l: ListView)
    requires
        well_numbered(l),
    ensures
        well_numbered(ListView { rows: kept(l.rows), ..l }),
{
    let n = activity::less(chosen(l.rows, false).len() as int, MAX_CLOSED as int) as nat;
    let at = lemma_without_closed_from(l.rows, n);
    let k = kept(l.rows);
    assert forall|i: int| 0 <= i < k.len() implies exists|m: nat|
        m < l.next && (#[trigger] k[i]).id == "L"@ + #[trigger] text::dec(m) by {
        assert(k[i] == l.rows[at(i)]);
    }
    assert forall|i: int, j: int| 0 <= i < j < k.len() implies (#[trigger] k[i]).id != (
    #[trigger] k[j]).id by {
        assert(at(i) < at(j));
        assert(k[i] == l.rows[at(i)] && k[j] == l.rows[at(j)]);
    }
}

/// Ids are handed out once: whatever is called, every id stays `L` and a number
/// below the next one, and no two tasks share one.
pub proof fn ids_are_never_reused(l: ListView, action: Seq<char>, id: Seq<char>, words: Seq<char>)
    requires
        well_numbered(l),
    ensures
        well_numbered(step(l, action, id, words).0),
        step(l, action, id, words).0.next >= l.next,
        well_numbered(fresh(l.epoch)),
{
    let (after, taken, _said) = step(l, action, id, words);
    if taken {
        if action == "list"@ {
            lemma_kept_numbered(l);
        } else if action == "add"@ {
            let name = "L"@ + text::dec(l.next);
            let row = Row { id: name, text: text::trimmed(words), status: "todo"@, note: seq![] };
            let grown = ListView { epoch: l.epoch, next: l.next + 1, rows: l.rows.push(row) };
            assert forall|i: int| 0 <= i < grown.rows.len() implies exists|k: nat|
                k < grown.next && (#[trigger] grown.rows[i]).id == "L"@ + #[trigger] text::dec(
                    k,
                ) by {
                if i < l.rows.len() {
                    let k = choose|k: nat|
                        k < l.next && l.rows[i].id == "L"@ + #[trigger] text::dec(k);
                    assert(k < grown.next && grown.rows[i].id == "L"@ + text::dec(k));
                } else {
                    assert(l.next < grown.next && grown.rows[i].id == "L"@ + text::dec(l.next));
                }
            }
            assert forall|i: int, j: int| 0 <= i < j < grown.rows.len() implies (
            #[trigger] grown.rows[i]).id != (#[trigger] grown.rows[j]).id by {
                if j == l.rows.len() {
                    let k = choose|k: nat|
                        k < l.next && l.rows[i].id == "L"@ + #[trigger] text::dec(k);
                    if l.rows[i].id == name {
                        lemma_names_differ(k, l.next);
                    }
                }
            }
            lemma_kept_numbered(grown);
        } else {
            let i = index_of(l.rows, text::raised(text::trimmed(id)))->0;
            lemma_index_of(l.rows, text::raised(text::trimmed(id)));
            let was = l.rows[i as int];
            let note = if (action == "done"@ || action == "failed"@) && text::trimmed(words).len()
                > 0 {
                text::trimmed(words)
            } else {
                was.note
            };
            let row = Row { status: status_after(action)->0, note, ..was };
            let changed = ListView { rows: l.rows.update(i as int, row), ..l };
            assert forall|k: int| 0 <= k < changed.rows.len() implies (#[trigger] changed.rows[k]).id
                == l.rows[k].id by {}
            assert(well_numbered(changed));
            lemma_kept_numbered(changed);
        }
    }
}

proof fn lemma_index_of(v: Seq<Row>, id: Seq<char>)
    ensures
        match index_of(v, id) {
            Some(i) => i < v.len() && v[i as int].id == id && forall|k: int|
                0 <= k < i ==> (#[trigger] v[k]).id != id,
            None => forall|k: int| 0 <= k < v.len() ==> (#[trigger] v[k]).id != id,
        },
    decreases v.len(),
{
    if v.len() > 0 && v[0].id != id {
        lemma_index_of(v.skip(1), id);
        assert forall|k: int| 0 <= k < v.len() && k >= 1 implies v[k] == v.skip(1)[k - 1] by {}
    }
}

/// No row comes before one with a smaller key.
pub open spec fn ordered(v: Seq<Row>) -> bool {
    forall|i: int, j: int|
        0 <= i < j < v.len() ==> order_key((#[trigger] v[i]).id) <= order_key((#[trigger] v[j]).id)
}

proof fn lemma_put_in_keeps(v: Seq<Row>, t: Row)
    requires
        ordered(v),
    ensures
        ordered(put_in(v, t)),
        put_in(v, t).to_multiset() == v.to_multiset().insert(t),
        put_in(v, t).len() == v.len() + 1,
        forall|i: int|
            0 <= i < put_in(v, t).len() ==> order_key((#[trigger] put_in(v, t)[i]).id) <= if v.len()
                > 0 && order_key(v.last().id) > order_key(t.id) {
                order_key(v.last().id)
            } else {
                order_key(t.id)
            },
    decreases v.len(),
{
    broadcast use vstd::seq_lib::group_to_multiset_ensures;

    if v.len() > 0 && order_key(v.last().id) > order_key(t.id) {
        lemma_put_in_keeps(v.drop_last(), t);
        let p = put_in(v.drop_last(), t);
        assert(v.drop_last().push(v.last()) =~= v);
        assert(p.push(v.last()).to_multiset() =~= v.to_multiset().insert(t));
    } else {
        assert(v.push(t).to_multiset() =~= v.to_multiset().insert(t));
        assert forall|i: int| 0 <= i < v.len() implies order_key((#[trigger] v[i]).id)
            <= order_key(t.id) by {
            if i < v.len() - 1 {
                assert(order_key(v[i].id) <= order_key(v[v.len() - 1].id));
            }
        }
    }
}

/// The record's lines come in id order, and are exactly the rows carried.
pub proof fn carried_rows_come_in_id_order(v: Seq<Row>)
    ensures
        ordered(in_order(v)),
        in_order(v).to_multiset() == v.to_multiset(),
        in_order(v).len() == v.len(),
    decreases v.len(),
{
    broadcast use vstd::seq_lib::group_to_multiset_ensures;

    if v.len() > 0 {
        carried_rows_come_in_id_order(v.drop_last());
        lemma_put_in_keeps(in_order(v.drop_last()), v.last());
        assert(v.drop_last().push(v.last()) =~= v);
        assert(in_order(v).to_multiset() =~= v.to_multiset());
    } else {
        assert(in_order(v) =~= v);
    }
}

/// A record carries at most `max` rows, every open one among them where they
/// fit, and besides those only the newest finished ones.
pub proof fn a_record_carries_every_open_one(v: Seq<Row>, max: nat)
    ensures
        carried(v, max).len() <= max,
        chosen(v, true).len() <= max ==> carried(v, max).take(chosen(v, true).len() as int)
            == chosen(v, true),
        chosen(v, true).len() + chosen(v, false).len() <= max ==> carried(v, max) == chosen(v, true)
            + chosen(v, false),
{
    let open = chosen(v, true);
    let closed = chosen(v, false);
    if open.len() <= max {
        assert(carried(v, max).take(open.len() as int) =~= open);
    }
    if open.len() + closed.len() <= max {
        assert(closed.skip(0) =~= closed);
    }
}

// ---------------------------------------------------------------------
// What a call does
// ---------------------------------------------------------------------

proof fn lemma_kept_from(v: Seq<Row>) -> (at: spec_fn(int) -> int)
    ensures
        kept(v).len() <= v.len(),
        forall|i: int|
            0 <= i < kept(v).len() ==> 0 <= #[trigger] at(i) < v.len() && kept(v)[i] == v[at(i)],
        forall|i: int, j: int|
            0 <= i < j < kept(v).len() ==> #[trigger] at(i) < #[trigger] at(j),
{
    lemma_without_closed_from(
        v,
        activity::less(chosen(v, false).len() as int, MAX_CLOSED as int) as nat,
    )
}

proof fn lemma_in_chosen(v: Seq<Row>, open: bool, t: Row)
    ensures
        chosen(v, open).contains(t) <==> v.contains(t) && row_open(t) == open,
    decreases v.len(),
{
    if v.len() > 0 {
        let front = v.drop_last();
        lemma_in_chosen(front, open, t);
        assert(v =~= front.push(v.last()));
        if v.contains(t) {
            let i = choose|i: int| 0 <= i < v.len() && v[i] == t;
            if i < front.len() {
                assert(front[i] == t);
            }
        }
        if front.contains(t) {
            let i = choose|i: int| 0 <= i < front.len() && front[i] == t;
            assert(v[i] == t);
        }
        if row_open(v.last()) == open {
            let c = chosen(front, open);
            assert(c.push(v.last())[c.len() as int] == v.last());
            if c.contains(t) {
                let i = choose|i: int| 0 <= i < c.len() && c[i] == t;
                assert(c.push(v.last())[i] == t);
            }
            if c.push(v.last()).contains(t) {
                let i = choose|i: int| 0 <= i < c.push(v.last()).len() && c.push(v.last())[i] == t;
                if i < c.len() {
                    assert(c[i] == t);
                } else {
                    assert(v[v.len() - 1] == t);
                }
            }
        } else {
            if chosen(v, open).contains(t) {
                assert(front.contains(t));
            }
        }
    }
}

/// No open task is ever trimmed, and none that fits is.
proof fn lemma_kept_open(v: Seq<Row>, i: int)
    requires
        0 <= i < v.len(),
    ensures
        v[i].status == "todo"@ || v[i].status == "doing"@ ==> kept(v).contains(v[i]),
{
    only_old_finished_ones_are_trimmed(v);
    lemma_in_chosen(v, true, v[i]);
    lemma_in_chosen(kept(v), true, v[i]);
}

/// The status an action leaves on the task it names.
pub open spec fn left_by(action: Seq<char>, status: Seq<char>) -> bool {
    ||| action == "start"@ && status == "doing"@
    ||| action == "done"@ && status == "done"@
    ||| action == "failed"@ && status == "failed"@
    ||| action == "drop"@ && status == "dropped"@
}

proof fn lemma_actions_differ()
    ensures
        "start"@ != "done"@,
        "start"@ != "failed"@,
        "start"@ != "drop"@,
        "start"@ != "list"@,
        "start"@ != "add"@,
        "done"@ != "failed"@,
        "done"@ != "drop"@,
        "done"@ != "list"@,
        "done"@ != "add"@,
        "failed"@ != "drop"@,
        "failed"@ != "list"@,
        "failed"@ != "add"@,
        "drop"@ != "list"@,
        "drop"@ != "add"@,
        "list"@ != "add"@,
        "doing"@ != "done"@,
        "doing"@ != "failed"@,
        "doing"@ != "dropped"@,
        "doing"@ != "todo"@,
        "todo"@ != "done"@,
        "todo"@ != "failed"@,
        "todo"@ != "dropped"@,
        "done"@ != "dropped"@,
        "failed"@ != "dropped"@,
{
    reveal_strlit("start");
    reveal_strlit("done");
    reveal_strlit("failed");
    reveal_strlit("drop");
    reveal_strlit("list");
    reveal_strlit("add");
    reveal_strlit("doing");
    reveal_strlit("todo");
    reveal_strlit("dropped");
    assert("start"@.len() == 5);
    assert("done"@.len() == 4);
    assert("failed"@.len() == 6);
    assert("drop"@.len() == 4);
    assert("list"@.len() == 4);
    assert("add"@.len() == 3);
    assert("doing"@.len() == 5);
    assert("todo"@.len() == 4);
    assert("dropped"@.len() == 7);
    assert("doing"@[0] == 'd');
    assert("done"@[0] == 'd');
    assert("done"@[1] == 'o');
    assert("drop"@[0] == 'd');
    assert("drop"@[1] == 'r');
    assert("list"@[0] == 'l');
    assert("start"@[0] == 's');
    assert("todo"@[0] == 't');
}

/// An action that is taken leaves its own status on the task it names, and on no
/// other: `start` leaves `doing`, `done` `done`, `failed` `failed` and `drop`
/// `dropped`. What was to be done stays as it was written down, a finished
/// task's note is what was said of it, and every other task is as it was.
pub proof fn an_action_leaves_its_own_status(
    l: ListView,
    action: Seq<char>,
    id: Seq<char>,
    words: Seq<char>,
    k: int,
)
    requires
        well_numbered(l),
        action == "start"@ || action == "done"@ || action == "failed"@ || action == "drop"@,
        step(l, action, id, words).1,
        0 <= k < step(l, action, id, words).0.rows.len(),
    ensures
        step(l, action, id, words).0.next == l.next,
        step(l, action, id, words).0.epoch == l.epoch,
        ({
            let now = step(l, action, id, words).0.rows[k];
            let named = text::raised(text::trimmed(id));
            exists|j: int|
                #![trigger l.rows[j]]
                0 <= j < l.rows.len() && now.id == l.rows[j].id && now.text == l.rows[j].text && (
                if now.id == named {
                    &&& left_by(action, now.status)
                    &&& now.note == (if (action == "done"@ || action == "failed"@) && text::trimmed(
                        words,
                    ).len() > 0 {
                        text::trimmed(words)
                    } else {
                        l.rows[j].note
                    })
                } else {
                    now == l.rows[j]
                })
        }),
{
    lemma_actions_differ();
    let named = text::raised(text::trimmed(id));
    lemma_index_of(l.rows, named);
    let i = index_of(l.rows, named)->0 as int;
    let was = l.rows[i];
    let note = if (action == "done"@ || action == "failed"@) && text::trimmed(words).len() > 0 {
        text::trimmed(words)
    } else {
        was.note
    };
    let row = Row { status: status_after(action)->0, note, ..was };
    let changed = l.rows.update(i, row);
    let at = lemma_kept_from(changed);
    assert(step(l, action, id, words).0.rows == kept(changed));
    assert(kept(changed)[k] == changed[at(k)]);
    let j = at(k);
    assert(0 <= j < l.rows.len());
    if j == i {
        assert(l.rows[j] == was);
    } else {
        assert(changed[j] == l.rows[j]);
        assert(l.rows[j].id != named) by {
            if j < i {
                assert(l.rows[j].id != l.rows[i].id);
            } else {
                assert(l.rows[i].id != l.rows[j].id);
            }
        }
    }
}

/// An action is taken exactly where a task has the id it names, but that no task
/// is opened again where too many are open; and it says which task is what now.
pub proof fn an_action_is_taken_where_its_task_is(
    l: ListView,
    action: Seq<char>,
    id: Seq<char>,
    words: Seq<char>,
)
    requires
        action == "start"@ || action == "done"@ || action == "failed"@ || action == "drop"@,
    ensures
        ({
            let named = text::raised(text::trimmed(id));
            let there = exists|j: int| 0 <= j < l.rows.len() && (#[trigger] l.rows[j]).id == named;
            let (after, taken, said) = step(l, action, id, words);
            &&& !there ==> !taken && said == "no local task "@ + outside::quoted(named)
                + " — use an id from this list."@
            &&& there && action != "start"@ ==> taken
            &&& there && chosen(l.rows, true).len() < MAX_OPEN ==> taken
            &&& taken ==> there && exists|status: Seq<char>| #[trigger]
                left_by(action, status) && said == named + " is "@ + status + "."@
        }),
{
    lemma_actions_differ();
    let named = text::raised(text::trimmed(id));
    lemma_index_of(l.rows, named);
    if index_of(l.rows, named) is Some {
        assert(l.rows[index_of(l.rows, named)->0 as int].id == named);
        assert(left_by(action, status_after(action)->0));
    }
}

/// A task that is opened or finished is still there afterwards, unless it was
/// finished and is older than all that a list keeps.
pub proof fn an_open_task_stays(
    l: ListView,
    action: Seq<char>,
    id: Seq<char>,
    words: Seq<char>,
    j: int,
)
    requires
        well_numbered(l),
        0 <= j < l.rows.len(),
        l.rows[j].status == "todo"@ || l.rows[j].status == "doing"@,
        l.rows[j].id != text::raised(text::trimmed(id)) || action == "start"@ || action == "list"@
            || action == "add"@,
    ensures
        exists|k: int|
            0 <= k < step(l, action, id, words).0.rows.len() && (#[trigger] step(
                l,
                action,
                id,
                words,
            ).0.rows[k]).id == l.rows[j].id && step(l, action, id, words).0.rows[k].text
                == l.rows[j].text && (step(l, action, id, words).0.rows[k].status == "todo"@
                || step(l, action, id, words).0.rows[k].status == "doing"@),
{
    lemma_actions_differ();
    let (after, taken, _said) = step(l, action, id, words);
    if !taken {
        assert(after.rows[j] == l.rows[j]);
    } else if action == "list"@ {
        lemma_kept_open(l.rows, j);
        let k = choose|k: int| 0 <= k < after.rows.len() && after.rows[k] == l.rows[j];
        assert(after.rows[k].id == l.rows[j].id);
    } else if action == "add"@ {
        let name = "L"@ + text::dec(l.next);
        let row = Row { id: name, text: text::trimmed(words), status: "todo"@, note: seq![] };
        assert(l.rows.push(row)[j] == l.rows[j]);
        lemma_kept_open(l.rows.push(row), j);
        let k = choose|k: int| 0 <= k < after.rows.len() && after.rows[k] == l.rows[j];
        assert(after.rows[k].id == l.rows[j].id);
    } else {
        let named = text::raised(text::trimmed(id));
        lemma_index_of(l.rows, named);
        let i = index_of(l.rows, named)->0 as int;
        let was = l.rows[i];
        let note = if (action == "done"@ || action == "failed"@) && text::trimmed(words).len()
            > 0 {
            text::trimmed(words)
        } else {
            was.note
        };
        let row = Row { status: status_after(action)->0, note, ..was };
        let changed = l.rows.update(i, row);
        assert(after.rows == kept(changed));
        lemma_kept_open(changed, j);
        let k = choose|k: int| 0 <= k < after.rows.len() && after.rows[k] == changed[j];
        assert(after.rows[k].id == l.rows[j].id);
    }
}

/// A new task is to be done: it is there with the words it was given and an id
/// of its own, and it is said under which; nothing is added without words, or
/// where too many are open.
pub proof fn a_new_task_is_to_be_done(l: ListView, id: Seq<char>, words: Seq<char>)
    ensures
        step(l, "add"@, id, words).1 <==> text::trimmed(words).len() > 0 && chosen(
            l.rows,
            true,
        ).len() < MAX_OPEN,
        step(l, "add"@, id, words).1 ==> {
            let (after, _taken, said) = step(l, "add"@, id, words);
            &&& after.rows.len() > 0
            &&& after.rows.last().text == text::trimmed(words)
            &&& after.rows.last().status == "todo"@
            &&& after.rows.last().note.len() == 0
            &&& after.rows.last().id == "L"@ + text::dec(l.next)
            &&& after.next == l.next + 1
            &&& after.epoch == l.epoch
            &&& said == "added "@ + after.rows.last().id + "."@
            &&& after.rows.drop_last() == kept(l.rows)
        },
{
    lemma_actions_differ();
    if step(l, "add"@, id, words).1 {
        let name = "L"@ + text::dec(l.next);
        let row = Row { id: name, text: text::trimmed(words), status: "todo"@, note: seq![] };
        let all = l.rows.push(row);
        assert(all.drop_last() =~= l.rows);
        let n = activity::less(chosen(l.rows, false).len() as int, MAX_CLOSED as int) as nat;
        lemma_without_closed_push(l.rows, row, n);
        assert(without_closed(l.rows, n).push(row).drop_last() =~= without_closed(l.rows, n));
    }
}

proof fn lemma_without_closed_push(v: Seq<Row>, t: Row, n: nat)
    requires
        row_open(t),
    ensures
        without_closed(v.push(t), n) == without_closed(v, n).push(t),
    decreases v.len(),
{
    let w = v.push(t);
    if v.len() == 0 {
        assert(w.skip(1) =~= Seq::<Row>::empty());
        assert(without_closed(w.skip(1), n) =~= Seq::<Row>::empty());
        assert(without_closed(w, n) =~= seq![t]);
        assert(without_closed(v, n).push(t) =~= seq![t]);
    } else {
        assert(w.skip(1) =~= v.skip(1).push(t));
        if n > 0 && !row_open(v[0]) {
            lemma_without_closed_push(v.skip(1), t, (n - 1) as nat);
        } else {
            lemma_without_closed_push(v.skip(1), t, n);
            assert(seq![v[0]] + without_closed(v.skip(1), n).push(t) =~= (seq![v[0]]
                + without_closed(v.skip(1), n)).push(t));
        }
    }
}

/// Looking at a list changes nothing but that old finished tasks go.
pub proof fn looking_changes_nothing(l: ListView, id: Seq<char>, words: Seq<char>)
    ensures
        step(l, "list"@, id, words).1,
        chosen(l.rows, false).len() <= MAX_CLOSED ==> step(l, "list"@, id, words).0 == l,
{
    assert(without_closed(l.rows, 0) == l.rows) by {
        lemma_without_none(l.rows);
    }
}

proof fn lemma_without_none(v: Seq<Row>)
    ensures
        without_closed(v, 0) == v,
    decreases v.len(),
{
    if v.len() > 0 {
        lemma_without_none(v.skip(1));
        assert(seq![v[0]] + v.skip(1) =~= v);
    } else {
        assert(without_closed(v, 0) =~= v);
    }
}

/// An action that is none is refused, and named.
pub proof fn an_unknown_action_is_refused(
    l: ListView,
    action: Seq<char>,
    id: Seq<char>,
    words: Seq<char>,
)
    requires
        action != "list"@ && action != "add"@ && action != "start"@ && action != "done"@ && action
            != "failed"@ && action != "drop"@,
    ensures
        !step(l, action, id, words).1,
        step(l, action, id, words).0 == l,
        step(l, action, id, words).2 == "unknown action "@ + outside::quoted(action)
            + " — add, start, done, failed, drop or list."@,
{
}

// ---------------------------------------------------------------------
// What a list shows
// ---------------------------------------------------------------------

/// A task is open while it is to be done or being done, and closed after that.
pub proof fn a_task_is_open_until_it_is_finished(t: Row)
    ensures
        t.status == "todo"@ || t.status == "doing"@ ==> row_open(t),
        t.status == "done"@ || t.status == "failed"@ || t.status == "dropped"@ ==> !row_open(t),
{
    reveal_strlit("todo");
    reveal_strlit("doing");
    reveal_strlit("done");
    reveal_strlit("failed");
    reveal_strlit("dropped");
    assert("todo"@.len() == 4);
    assert("doing"@.len() == 5);
    assert("done"@.len() == 4);
    assert("failed"@.len() == 6);
    assert("dropped"@.len() == 7);
    assert("done"@[0] == 'd');
    assert("todo"@[0] == 't');
}

/// A task is shown with its id, its status, its text and what came of it.
pub proof fn a_task_is_shown_whole(t: Row)
    ensures
        text::starts(row_text(t), t.id + " ["@ + t.status + "] "@ + t.text),
        t.note.len() > 0 ==> text::ends(row_text(t), t.note),
        t.note.len() == 0 ==> row_text(t) == t.id + " ["@ + t.status + "] "@ + t.text,
        brief(t) == t.id + " ["@ + t.status + "] "@ + t.text,
{
    let h = t.id + " ["@ + t.status + "] "@ + t.text;
    let r = row_text(t);
    assert(r.subrange(0, h.len() as int) =~= h);
    if t.note.len() > 0 {
        assert(r.subrange(r.len() - t.note.len(), r.len() as int) =~= t.note);
    }
}

proof fn lemma_chosen_at(v: Seq<Row>, open: bool, i: int)
    requires
        0 <= i < v.len(),
        row_open(v[i]) == open,
    ensures
        exists|k: int| 0 <= k < chosen(v, open).len() && #[trigger] chosen(v, open)[k] == v[i],
    decreases v.len(),
{
    let front = v.drop_last();
    if i < front.len() {
        assert(front[i] == v[i]);
        lemma_chosen_at(front, open, i);
        let k = choose|k: int| 0 <= k < chosen(front, open).len() && #[trigger] chosen(front, open)[k] == v[i];
        assert(chosen(v, open)[k] == v[i]);
    } else {
        assert(chosen(v, open)[chosen(front, open).len() as int] == v[i]);
    }
}

/// Every task of the list is shown, open or finished.
pub proof fn every_task_is_shown(v: Seq<Row>, lead: Seq<char>, i: int)
    requires
        0 <= i < v.len(),
    ensures
        text::has(rendered(v, lead), row_text(v[i])),
        lead.len() > 0 ==> text::has(rendered(v, lead), lead),
{
    let parts = rendered_parts(v, lead);
    let start: int = if lead.len() == 0 {
        0
    } else {
        1
    };
    let open = row_texts(chosen(v, true));
    let closed = row_texts(chosen(v, false));
    let o = row_open(v[i]);
    lemma_chosen_at(v, o, i);
    let k = choose|k: int| 0 <= k < chosen(v, o).len() && #[trigger] chosen(v, o)[k] == v[i];
    let r = row_text(v[i]);
    if o {
        assert(open[k] == r);
        text::lemma_has_part(open, "\n"@, k);
        text::lemma_has_right("Open:\n"@, text::joined(open, "\n"@), r);
        assert(parts[start] == "Open:\n"@ + text::joined(open, "\n"@));
        text::lemma_has_part(parts, "\n"@, start);
        text::lemma_has_through(rendered(v, lead), parts[start], r);
    } else {
        assert(closed[k] == r);
        text::lemma_has_part(closed, "\n"@, k);
        text::lemma_has_right("Finished:\n"@, text::joined(closed, "\n"@), r);
        assert(parts[start + 1] == "Finished:\n"@ + text::joined(closed, "\n"@));
        text::lemma_has_part(parts, "\n"@, start + 1);
        text::lemma_has_through(rendered(v, lead), parts[start + 1], r);
    }
    if lead.len() > 0 {
        assert(parts[0] == lead);
        text::lemma_has_part(parts, "\n"@, 0);
    }
}

/// The model is reminded of every open task, and of nothing where none is open.
pub proof fn every_open_task_is_reminded_of(v: Seq<Row>, i: int)
    requires
        0 <= i < v.len(),
        row_open(v[i]),
    ensures
        reminded(v) matches Some(s) && text::has(s, v[i].id + " ["@ + v[i].status + "] "@ + v[i].text),
{
    lemma_chosen_at(v, true, i);
    let k = choose|k: int| 0 <= k < chosen(v, true).len() && #[trigger] chosen(v, true)[k] == v[i];
    let open = briefs(chosen(v, true));
    let b = v[i].id + " ["@ + v[i].status + "] "@ + v[i].text;
    assert(open[k] == b);
    text::lemma_has_part(open, "\n"@, k);
    let a = "(Your open local tasks — LocalTask to update them:\n"@;
    text::lemma_has_right(a, text::joined(open, "\n"@), b);
    text::lemma_has_left(a + text::joined(open, "\n"@), ")"@, b);
}

/// A list with nothing open is not reminded of.
pub proof fn nothing_open_is_not_reminded_of(v: Seq<Row>)
    requires
        forall|i: int| 0 <= i < v.len() ==> !row_open(#[trigger] v[i]),
    ensures
        reminded(v) is None,
    decreases v.len(),
{
    lemma_none_chosen(v);
}

proof fn lemma_none_chosen(v: Seq<Row>)
    requires
        forall|i: int| 0 <= i < v.len() ==> !row_open(#[trigger] v[i]),
    ensures
        chosen(v, true).len() == 0,
    decreases v.len(),
{
    if v.len() > 0 {
        let front = v.drop_last();
        assert forall|i: int| 0 <= i < front.len() implies !row_open(#[trigger] front[i]) by {
            assert(front[i] == v[i]);
        }
        assert(v.last() == v[v.len() - 1]);
        lemma_none_chosen(front);
    }
}

/// A task is carried with its id and its status as they are, and the first line
/// of its text and of its note.
pub proof fn a_carried_task_keeps_its_status(v: Seq<Row>, i: int)
    requires
        0 <= i < v.len(),
    ensures
        lines_for(v).len() == v.len(),
        lines_for(v)[i].id == v[i].id,
        lines_for(v)[i].status == v[i].status,
        lines_for(v)[i].text == activity::clipped(activity::headline(v[i].text), 120),
        lines_for(v)[i].note == activity::clipped(activity::headline(v[i].note), 120),
{
}

/// Rows are in the order of their numbers.
pub proof fn a_row_goes_by_its_number(n: nat)
    requires
        n <= u64::MAX,
    ensures
        order_key("L"@ + text::dec(n)) == n,
{
    reveal_strlit("L");
    let s = "L"@ + text::dec(n);
    assert(s.skip(1) =~= text::dec(n));
    lemma_dec_start(n);
    reveal_with_fuel(text::without_leading, 2);
    assert(text::without_leading(s, 'L') == text::dec(n));
    text::printed_numbers_read_back(n);
}

proof fn lemma_dec_start(n: nat)
    ensures
        text::dec(n).len() > 0,
        text::dec(n)[0] != 'L',
    decreases n,
{
    if n >= 10 {
        lemma_dec_start(n / 10);
        assert(text::dec(n)[0] == text::dec(n / 10)[0]);
    } else {
        assert(text::digit(n) as u32 == 48 + n);
    }
}

} // verus!
